use askic::domain::{EnumChild, Expr, ExprRef, LiteralValue, Pattern, RootChild, Statement, StructChild, TypeExpr};
use askic::parse::parse_source;

#[test]
fn parse_simple_enum() {
    let prog = parse_source("(Test Element)\n(Element Fire Earth Air Water)").unwrap();
    assert_eq!(prog.children.len(), 2); // module + enum
    match &prog.children[1] {
        RootChild::Enum(e) => {
            assert_eq!(e.name.0, "Element");
            assert_eq!(e.children.len(), 4);
        }
        other => panic!("expected Enum, got {:?}", other),
    }
}

#[test]
fn parse_tests_parse_struct() {
    let prog = parse_source("(Test Point)\n{Point (Horizontal F64) (Vertical F64)}").unwrap();
    match &prog.children[1] {
        RootChild::Struct(s) => {
            assert_eq!(s.name.0, "Point");
            assert_eq!(s.children.len(), 2);
        }
        other => panic!("expected Struct, got {:?}", other),
    }
}

#[test]
fn parse_tests_parse_newtype() {
    let prog = parse_source("(Test Counter)\nCounter U32").unwrap();
    match &prog.children[1] {
        RootChild::Newtype(n) => {
            assert_eq!(n.name.0, "Counter");
            match &n.wraps {
                TypeExpr::Simple(name) => assert_eq!(name.0, "U32"),
                other => panic!("expected Simple type, got {:?}", other),
            }
        }
        other => panic!("expected Newtype, got {:?}", other),
    }
}

#[test]
fn parse_const() {
    let prog = parse_source("(Test Pi)\n{| Pi F64 3.14 |}").unwrap();
    match &prog.children[1] {
        RootChild::Const(c) => {
            assert_eq!(c.name.0, "Pi");
            match &c.value {
                LiteralValue::Float(v) => {
                    let x: f64 = v.parse().unwrap_or(0.0);
                    assert!(x > 3.0)
                }
                other => panic!("expected Float, got {:?}", other),
            }
        }
        other => panic!("expected Const, got {:?}", other),
    }
}

#[test]
fn parse_tests_parse_trait_decl() {
    let prog = parse_source("(Test describe)\n(describe [(describe :@Self Quality)])").unwrap();
    match &prog.children[1] {
        RootChild::TraitDecl(t) => {
            assert_eq!(t.name.0, "describe");
            assert_eq!(t.signatures.len(), 1);
            assert_eq!(t.signatures[0].name.0, "describe");
        }
        other => panic!("expected TraitDecl, got {:?}", other),
    }
}

#[test]
fn parse_trait_impl_with_match() {
    let source = r#"
(Test Element Quality describe)
(Element Fire Earth Air Water)
(Quality Passionate Grounded Intellectual Intuitive)
(describe [(describe :@Self Quality)])
[describe Element [
  (describe :@Self Quality (|
    (Fire) Passionate
    (Earth) Grounded
    (Air) Intellectual
    (Water) Intuitive
  |))
]]
"#;
    let prog = parse_source(source).unwrap();
    // module + Element + Quality + describe decl + describe impl
    assert_eq!(prog.children.len(), 5);
    match &prog.children[4] {
        RootChild::TraitImpl(i) => {
            assert_eq!(i.trait_name.0, "describe");
            assert_eq!(i.for_type.0, "Element");
            assert_eq!(i.methods.len(), 1);
        }
        other => panic!("expected TraitImpl, got {:?}", other),
    }
}

#[test]
fn parse_block_body() {
    let source = r#"
(Test Addition compute)
{Addition (Left U32) (Right U32)}
(compute [(add :@Self U32)])
[compute Addition [
  (add :@Self U32 [
    @Self.Left + @Self.Right
  ])
]]
"#;
    let prog = parse_source(source).unwrap();
    assert!(prog.children.len() >= 4);
}

#[test]
fn parse_process_block() {
    let source = r#"
(Test Element describe)
(Element Fire Earth Air Water)
[|
  @MyElement Element/Fire
  StdOut/print(@MyElement.describe)
|]
"#;
    let prog = parse_source(source).unwrap();
    let has_process = prog.children.iter().any(|c| matches!(c, RootChild::Process(_)));
    assert!(has_process);
}

#[test]
fn parse_data_variant_and_application() {
    let prog =
        parse_source("(T E)\n(ParseResult (Success [Vec Node]) (Failure String) Pending)").unwrap();
    match &prog.children[1] {
        RootChild::Enum(e) => {
            assert_eq!(e.children.len(), 3);
            match &prog.arena.enum_children[e.children[0].idx()] {
                EnumChild::DataVariant { name, payload, .. } => {
                    assert_eq!(name.0, "Success");
                    match payload {
                        TypeExpr::Application { constructor, args } => {
                            assert_eq!(constructor.0, "Vec");
                            assert_eq!(args.len(), 1);
                        }
                        other => panic!("expected Application, got {:?}", other),
                    }
                }
                other => panic!("expected DataVariant, got {:?}", other),
            }
            assert!(matches!(
                &prog.arena.enum_children[e.children[2].idx()],
                EnumChild::Variant { name, .. } if name.0 == "Pending"
            ));
        }
        other => panic!("expected Enum, got {:?}", other),
    }
}

#[test]
fn parse_generic_params() {
    let prog = parse_source("(T E)\n(Result (Ok $Output) (Err $Show&Clone))").unwrap();
    match &prog.children[1] {
        RootChild::Enum(e) => {
            match &prog.arena.enum_children[e.children[0].idx()] {
                EnumChild::DataVariant { payload: TypeExpr::Param(p), .. } => {
                    assert_eq!(p.0, "Output")
                }
                other => panic!("expected a parameter, got {:?}", other),
            }
            match &prog.arena.enum_children[e.children[1].idx()] {
                EnumChild::DataVariant { payload: TypeExpr::BoundedParam { bounds }, .. } => {
                    assert_eq!(bounds.len(), 2);
                    assert_eq!(bounds[1].0, "Clone");
                }
                other => panic!("expected bounded parameter, got {:?}", other),
            }
        }
        other => panic!("expected Enum, got {:?}", other),
    }
}

#[test]
fn parse_struct_variant_copies_fields() {
    let prog = parse_source("(T E)\n(Shape {Circle (Radius F64) Center})").unwrap();
    match &prog.children[1] {
        RootChild::Enum(e) => match &prog.arena.enum_children[e.children[0].idx()] {
            EnumChild::StructVariant { name, fields, .. } => {
                assert_eq!(name.0, "Circle");
                assert_eq!(fields.len(), 2);
                assert_eq!(fields[0].name.0, "Radius");
                assert!(matches!(&fields[1].typ, TypeExpr::Simple(n) if n.0 == "Center"));
            }
            other => panic!("expected StructVariant, got {:?}", other),
        },
        other => panic!("expected Enum, got {:?}", other),
    }
    // the struct members stay in the arena too
    assert_eq!(prog.arena.struct_children.len(), 2);
}

#[test]
fn parse_self_typed_field() {
    let prog = parse_source("(T E)\n{Drawing (Shapes [Vec Shape]) Name}").unwrap();
    match &prog.children[1] {
        RootChild::Struct(s) => {
            match &prog.arena.struct_children[s.children[1].idx()] {
                StructChild::SelfTypedField { name, .. } => assert_eq!(name.0, "Name"),
                other => panic!("expected SelfTypedField, got {:?}", other),
            }
        }
        other => panic!("expected Struct, got {:?}", other),
    }
}

#[test]
fn parse_const_int_and_string() {
    let prog = parse_source("(T E)\n{| MaxSigns U32 12 |}\n{| Greeting String \"hi\" |}").unwrap();
    assert!(matches!(&prog.children[1], RootChild::Const(c) if matches!(c.value, LiteralValue::Int(12))));
    match &prog.children[2] {
        RootChild::Const(c) => assert!(matches!(&c.value, LiteralValue::Str(s) if s == "hi")),
        other => panic!("expected Const, got {:?}", other),
    }
}

#[test]
fn parse_ffi_library() {
    let prog = parse_source("(T E)\n(| FileSystem (readToString @Path String String) (exists @Path) |)")
        .unwrap();
    match &prog.children[1] {
        RootChild::Ffi(f) => {
            assert_eq!(f.library.0, "FileSystem");
            assert_eq!(f.functions.len(), 2);
            assert_eq!(f.functions[0].params.len(), 1);
            assert!(f.functions[0].return_type.is_some());
            assert!(f.functions[1].return_type.is_none());
        }
        other => panic!("expected Ffi, got {:?}", other),
    }
}

#[test]
fn parse_module_imports_and_exports() {
    let prog = parse_source("(Chart Sign houseOf [Astro Planet Aspect])").unwrap();
    assert_eq!(prog.children.len(), 1);
    match &prog.children[0] {
        RootChild::Module(m) => {
            assert_eq!(m.name.0, "Chart");
            assert_eq!(m.exports.len(), 2);
            assert_eq!(m.imports.len(), 1);
            assert_eq!(m.imports[0].source.0, "Astro");
            assert_eq!(m.imports[0].names.len(), 2);
        }
        other => panic!("expected Module, got {:?}", other),
    }
}

#[test]
fn parse_expression_precedence() {
    let source = "(T E)\n[| @A 1 + 2 * 3 |]";
    let prog = parse_source(source).unwrap();
    match &prog.children[1] {
        RootChild::Process(b) => {
            let block = &prog.arena.blocks[b.idx()];
            assert_eq!(block.stmts.len(), 1);
            match &prog.arena.stmts[block.stmts[0].idx()] {
                Statement::Instance { name, value, .. } => {
                    assert_eq!(name.0, "A");
                    match &prog.arena.exprs[value.idx()] {
                        Expr::BinAdd { right, .. } => {
                            assert!(matches!(
                                prog.arena.exprs[right.idx()],
                                Expr::BinMul { .. }
                            ));
                        }
                        other => panic!("expected BinAdd, got {:?}", other),
                    }
                }
                other => panic!("expected Instance, got {:?}", other),
            }
        }
        other => panic!("expected Process, got {:?}", other),
    }
}

#[test]
fn parse_process_tail_expression() {
    let prog = parse_source("(T E)\n[| @X 1\n@X.show |]").unwrap();
    match &prog.children[1] {
        RootChild::Process(b) => {
            let block = &prog.arena.blocks[b.idx()];
            assert_eq!(block.stmts.len(), 1);
            assert!(block.tail.is_some());
        }
        other => panic!("expected Process, got {:?}", other),
    }
}

#[test]
fn parsed_references_point_into_the_arena() {
    let source = r#"
(Test Element Quality describe)
(Element Fire Earth Air Water)
(describe [(describe :@Self Quality)])
[describe Element [
  (describe :@Self Quality (|
    (Fire | Earth) Passionate
    (Air) Intellectual
  |))
  (count :@Self U32 [ ^ 1 + @Self.size(2 3) ])
]]
[| @N {Point (X 1) (Y 2)}  ~@N.move(3) |]
"#;
    let prog = parse_source(source).unwrap();
    let a = &prog.arena;
    for e in &a.exprs {
        match e {
            Expr::BinAdd { left, right, .. } | Expr::BinMul { left, right, .. } => {
                assert!(left.idx() < a.exprs.len() && right.idx() < a.exprs.len())
            }
            Expr::MethodCall { object, args, .. } => {
                assert!(object.idx() < a.exprs.len());
                assert!(args.iter().all(|r| r.idx() < a.exprs.len()));
            }
            Expr::Match(m) => assert!(m.idx() < a.matches.len()),
            Expr::StructConstruct { fields, .. } => {
                assert!(fields.iter().all(|f| f.idx() < a.field_inits.len()))
            }
            _ => {}
        }
    }
    for b in &a.blocks {
        assert!(b.stmts.iter().all(|s| s.idx() < a.stmts.len()));
    }
    for m in &a.matches {
        assert!(m.arms.iter().all(|r| r.idx() < a.match_arms.len()));
    }
    for md in &a.method_defs {
        assert!(md.params.iter().all(|p| p.idx() < a.params.len()));
    }
    assert_eq!(a.method_defs.len(), 2);
    assert_eq!(a.match_arms.len(), 2);
    assert_eq!(a.match_arms[0].patterns.len(), 2);
}

#[test]
fn parse_rejects_missing_module() {
    let r = parse_source("{Point (X U32)}");
    assert!(r.is_err());
}

#[test]
fn parse_rejects_unknown_root_construct() {
    let r = parse_source("(T E)\n@Loose");
    let e = r.unwrap_err();
    assert!(e.contains("root construct"), "{}", e);
}

#[test]
fn parse_rejects_unlexable_source() {
    let r = parse_source("(T E)\n#");
    let e = r.unwrap_err();
    assert!(e.contains("invalid token"), "{}", e);
}

#[test]
fn parse_rejects_unclosed_enum() {
    let r = parse_source("(T E)\n(Element Fire Earth");
    let e = r.unwrap_err();
    assert!(e.contains("unexpected EOF in enum"), "{}", e);
}

#[test]
fn parse_allows_newlines_anywhere_between_tokens() {
    let prog = parse_source("\n(T\nE)\n\n(Element\n Fire\n Water\n)\n\n").unwrap();
    assert_eq!(prog.children.len(), 2);
}

#[test]
fn parse_method_without_body_gets_empty_block() {
    let prog = parse_source("(T E)\n[size Point [ (size :@Self U32) ]]").unwrap();
    match &prog.children[1] {
        RootChild::TraitImpl(i) => {
            let md = &prog.arena.method_defs[i.methods[0].idx()];
            assert_eq!(md.name.0, "size");
            assert_eq!(md.params.len(), 1);
            match md.body {
                askic::domain::MethodBody::Block(b) => {
                    assert!(prog.arena.blocks[b.idx()].stmts.is_empty());
                    assert!(prog.arena.blocks[b.idx()].tail.is_none());
                }
                ref other => panic!("expected empty block, got {:?}", other),
            }
        }
        other => panic!("expected TraitImpl, got {:?}", other),
    }
}

#[test]
fn parse_instance_with_type_annotation() {
    let prog = parse_source("(T E)\n[| @Count (U32) 5 |]").unwrap();
    match &prog.children[1] {
        RootChild::Process(b) => {
            let block = &prog.arena.blocks[b.idx()];
            match &prog.arena.stmts[block.stmts[0].idx()] {
                Statement::Instance { name, type_annotation, .. } => {
                    assert_eq!(name.0, "Count");
                    assert!(matches!(type_annotation, Some(TypeExpr::Simple(t)) if t.0 == "U32"));
                }
                other => panic!("expected Instance, got {:?}", other),
            }
        }
        other => panic!("expected Process, got {:?}", other),
    }
}

#[test]
fn parse_mutation_statement() {
    let prog = parse_source("(T E)\n[| ~@List.push(1 2) |]").unwrap();
    match &prog.children[1] {
        RootChild::Process(b) => {
            let block = &prog.arena.blocks[b.idx()];
            match &prog.arena.stmts[block.stmts[0].idx()] {
                Statement::Mutation { name, method, args, .. } => {
                    assert_eq!(name.0, "List");
                    assert_eq!(method.0, "push");
                    assert_eq!(args.len(), 2);
                }
                other => panic!("expected Mutation, got {:?}", other),
            }
        }
        other => panic!("expected Process, got {:?}", other),
    }
}

#[test]
fn parse_rejects_variant_with_two_payloads() {
    assert!(parse_source("(T E)\n(Element (Fire String String))").is_err());
}

#[test]
fn parse_rejects_method_call_without_closing_paren() {
    assert!(parse_source("(T E)\n[| @X.show(1 |]").is_err());
}

#[test]
fn parse_type_application_with_parameter() {
    let prog = parse_source("(T E)\nItems [Vec $Item]").unwrap();
    match &prog.children[1] {
        RootChild::Newtype(n) => match &n.wraps {
            TypeExpr::Application { constructor, args } => {
                assert_eq!(constructor.0, "Vec");
                assert!(matches!(&args[0], TypeExpr::Param(p) if p.0 == "Item"));
            }
            other => panic!("expected Application, got {:?}", other),
        },
        other => panic!("expected Newtype, got {:?}", other),
    }
}

#[test]
fn parse_iteration_and_loop_statements() {
    let prog = parse_source("(T E)\n[| {| @Items [ @Item.show ] |} [| ^ 0 |] |]").unwrap();
    match &prog.children[1] {
        RootChild::Process(b) => {
            let block = &prog.arena.blocks[b.idx()];
            assert_eq!(block.stmts.len(), 2);
            assert!(matches!(
                prog.arena.stmts[block.stmts[0].idx()],
                Statement::Iteration { .. }
            ));
            assert!(matches!(prog.arena.stmts[block.stmts[1].idx()], Statement::Loop(_)));
        }
        other => panic!("expected Process, got {:?}", other),
    }
}

#[test]
fn parse_subtraction_groups_to_the_left() {
    let prog = parse_source("(T E)\n[| @A 10 - 3 - 2 |]").unwrap();
    let RootChild::Process(b) = &prog.children[1] else { panic!("expected Process") };
    let block = &prog.arena.blocks[b.idx()];
    let Statement::Instance { value, .. } = &prog.arena.stmts[block.stmts[0].idx()] else {
        panic!("expected Instance")
    };
    match &prog.arena.exprs[value.idx()] {
        Expr::BinSub { left, right, .. } => {
            assert!(matches!(prog.arena.exprs[right.idx()], Expr::IntLit { value: 2, .. }));
            match &prog.arena.exprs[left.idx()] {
                Expr::BinSub { left: l2, right: r2, .. } => {
                    assert!(matches!(prog.arena.exprs[l2.idx()], Expr::IntLit { value: 10, .. }));
                    assert!(matches!(prog.arena.exprs[r2.idx()], Expr::IntLit { value: 3, .. }));
                }
                other => panic!("expected inner BinSub, got {:?}", other),
            }
        }
        other => panic!("expected BinSub, got {:?}", other),
    }
}

#[test]
fn parse_postfix_chain_applies_left_to_right() {
    let prog = parse_source("(T E)\n[| @A.Field.call(1 2)? |]").unwrap();
    let RootChild::Process(b) = &prog.children[1] else { panic!("expected Process") };
    let block = &prog.arena.blocks[b.idx()];
    assert_eq!(block.stmts.len(), 0);
    let tail = block.tail.expect("tail");
    let Expr::TryUnwrap { inner, .. } = &prog.arena.exprs[tail.idx()] else { panic!("expected ?") };
    let Expr::MethodCall { object, method, args, .. } = &prog.arena.exprs[inner.idx()] else {
        panic!("expected method call")
    };
    assert_eq!(method.0, "call");
    assert_eq!(args.len(), 2);
    assert!(matches!(prog.arena.exprs[args[0].idx()], Expr::IntLit { value: 1, .. }));
    assert!(matches!(prog.arena.exprs[args[1].idx()], Expr::IntLit { value: 2, .. }));
    let Expr::FieldAccess { object: o2, field, .. } = &prog.arena.exprs[object.idx()] else {
        panic!("expected field access")
    };
    assert_eq!(field.0, "Field");
    match &prog.arena.exprs[o2.idx()] {
        Expr::InstanceRef { name, .. } => assert_eq!(name.0, "A"),
        other => panic!("expected InstanceRef, got {:?}", other),
    }
}

#[test]
fn parse_match_arm_patterns_and_results() {
    let prog = parse_source("(T E)\n[| (| @X (Fire | Air) 1 (Earth@E) \"x\" |) |]").unwrap();
    let RootChild::Process(b) = &prog.children[1] else { panic!("expected Process") };
    let block = &prog.arena.blocks[b.idx()];
    let tail = block.tail.expect("tail");
    let Expr::Match(m) = &prog.arena.exprs[tail.idx()] else { panic!("expected match") };
    let mx = &prog.arena.matches[m.idx()];
    assert!(mx.target.is_some());
    assert_eq!(mx.arms.len(), 2);
    let a0 = &prog.arena.match_arms[mx.arms[0].idx()];
    assert_eq!(a0.patterns.len(), 2);
    assert!(matches!(&a0.patterns[0], Pattern::Variant(n) if n.0 == "Fire"));
    assert!(matches!(&a0.patterns[1], Pattern::Variant(n) if n.0 == "Air"));
    assert!(matches!(prog.arena.exprs[a0.result.idx()], Expr::IntLit { value: 1, .. }));
    let a1 = &prog.arena.match_arms[mx.arms[1].idx()];
    assert!(matches!(&a1.patterns[0], Pattern::VariantBind { variant, binding } if variant.0 == "Earth" && binding.0 == "E"));
    assert!(matches!(&prog.arena.exprs[a1.result.idx()], Expr::StringLit { value, .. } if value == "x"));
}

#[test]
fn parse_struct_construction_fields() {
    let prog = parse_source("(T E)\n[| {Point (X 1) (Y @B)} |]").unwrap();
    let RootChild::Process(b) = &prog.children[1] else { panic!("expected Process") };
    let block = &prog.arena.blocks[b.idx()];
    let tail = block.tail.expect("tail");
    let Expr::StructConstruct { typ, fields, .. } = &prog.arena.exprs[tail.idx()] else {
        panic!("expected construction")
    };
    assert_eq!(typ.0, "Point");
    assert_eq!(fields.len(), 2);
    let f0 = &prog.arena.field_inits[fields[0].idx()];
    assert_eq!(f0.name.0, "X");
    assert!(matches!(prog.arena.exprs[f0.value.idx()], Expr::IntLit { value: 1, .. }));
    let f1 = &prog.arena.field_inits[fields[1].idx()];
    assert_eq!(f1.name.0, "Y");
    assert!(matches!(&prog.arena.exprs[f1.value.idx()], Expr::InstanceRef { name, .. } if name.0 == "B"));
}

#[test]
fn parse_reports_every_lexing_error_in_order() {
    let e = parse_source("(T E)\n# #").unwrap_err();
    assert_eq!(e, "invalid token at character 6, invalid token at character 8");
}

#[test]
fn parse_records_token_spans_on_nodes() {
    let prog = parse_source("(T E)\n[| @A 1 + 2 |]").unwrap();
    let RootChild::Process(b) = &prog.children[1] else { panic!("expected Process") };
    let block = &prog.arena.blocks[b.idx()];
    let Statement::Instance { value, span, .. } = &prog.arena.stmts[block.stmts[0].idx()] else {
        panic!("expected Instance")
    };
    assert_eq!((span.start, span.end), (18, 20));
    let Expr::BinAdd { left, span: op, .. } = &prog.arena.exprs[value.idx()] else {
        panic!("expected BinAdd")
    };
    assert_eq!((op.start, op.end), (14, 15));
    match &prog.arena.exprs[left.idx()] {
        Expr::IntLit { value: 1, span } => assert_eq!((span.start, span.end), (12, 13)),
        other => panic!("expected IntLit, got {:?}", other),
    }
    match &prog.children[0] {
        RootChild::Module(m) => assert_eq!((m.span.start, m.span.end), (0, 5)),
        other => panic!("expected Module, got {:?}", other),
    }
}

#[test]
fn parse_errors_render_the_token_found() {
    let err = parse_source("(Test A)\nfoo").unwrap_err();
    assert_eq!(err, "expected root construct, got Some(CamelIdent(\"foo\"))");
}

#[test]
fn parse_subtraction_chain_allocates_in_reading_order() {
    let prog = parse_source("(T E)\n[| @A 1 - 2 - 3 |]").unwrap();
    let ex = &prog.arena.exprs;
    assert_eq!(ex.len(), 5);
    assert!(matches!(ex[0], Expr::IntLit { value: 1, .. }));
    assert!(matches!(ex[1], Expr::IntLit { value: 2, .. }));
    assert!(matches!(ex[2], Expr::BinSub { left: ExprRef(0), right: ExprRef(1), .. }));
    assert!(matches!(ex[3], Expr::IntLit { value: 3, .. }));
    assert!(matches!(ex[4], Expr::BinSub { left: ExprRef(2), right: ExprRef(3), .. }));
    match &prog.children[1] {
        RootChild::Process(b) => {
            let block = &prog.arena.blocks[b.idx()];
            match &prog.arena.stmts[block.stmts[0].idx()] {
                Statement::Instance { value, .. } => assert_eq!(*value, ExprRef(4)),
                other => panic!("expected Instance, got {:?}", other),
            }
        }
        other => panic!("expected Process, got {:?}", other),
    }
}

#[test]
fn parse_field_sum_allocates_in_reading_order() {
    let prog = parse_source("(T E)\n[| @Self.Left + @Self.Right\n@X 1 |]").unwrap();
    let ex = &prog.arena.exprs;
    assert!(matches!(&ex[0], Expr::InstanceRef { name, .. } if name.0 == "Self"));
    assert!(matches!(&ex[1], Expr::FieldAccess { object: ExprRef(0), field, .. } if field.0 == "Left"));
    assert!(matches!(&ex[2], Expr::InstanceRef { name, .. } if name.0 == "Self"));
    assert!(matches!(&ex[3], Expr::FieldAccess { object: ExprRef(2), field, .. } if field.0 == "Right"));
    assert!(matches!(ex[4], Expr::BinAdd { left: ExprRef(1), right: ExprRef(3), .. }));
    match &prog.children[1] {
        RootChild::Process(b) => {
            let block = &prog.arena.blocks[b.idx()];
            match &prog.arena.stmts[block.stmts[0].idx()] {
                Statement::Expr(e) => assert_eq!(*e, ExprRef(4)),
                other => panic!("expected an expression statement, got {:?}", other),
            }
        }
        other => panic!("expected Process, got {:?}", other),
    }
}
