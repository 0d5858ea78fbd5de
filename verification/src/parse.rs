//! Recursive-descent parser of aski source into an arena-backed tree.
//!
//! Every node that refers to another is allocated into the parser's `Arena`, children
//! first, and refers to them by typed indices.
use vstd::prelude::*;
use vstd::string::StringExecFns;
use crate::domain::{
    Arena, AskiProgram, Block, BlockRef, ConstDef, EnumChild, EnumChildRef, EnumDef, Expr,
    ExprRef, FfiDef, FfiFunction, FieldInit, FieldInitRef, LiteralValue, MatchArm, MatchArmRef,
    MatchExpr, MatchRef, MethodBody, MethodDef, MethodDefRef, MethodSig, ModuleDef,
    ModuleImport, Name, NewtypeDef, Param, ParamRef, Pattern, RootChild, Span, Statement,
    StmtRef, StructChild, StructChildRef, StructDef, StructField, TraitDeclDef, TraitImplDef,
    Sizes, TypeExpr, TypeView, MemberView, VariantView, RootView, import_views, field_views, arms_below, enum_children_below, exprs_below, field_inits_below,
    method_defs_below, name_texts, params_below, stmts_below, struct_children_below,
};
use crate::token::{Spanned, Token, TokenKind, next_sig, lemma_next_sig, option_debug, option_debug_text, variant_text};
use crate::grammar::{
    ident,
    accepts, add_end, add_rest_end, after, and_end, and_rest_end, args_end, arms_end, atom_end,
    block_end, body_end, bounds_end, compare_end, const_end, ends_method_head, expr_end,
    ffi_end, ffi_fn_end, ffi_fn_items_end, ffi_fns_end, field_inits_end, impl_end,
    iteration_end, is_comparison, kind_at, lemma_sig_shape, loop_end, match_end, method_end, method_head_end,
    methods_end, module_end, module_items_end, more_patterns_end, mul_end, mul_rest_end,
    names_end, newtype_end, or_end, or_rest_end, param_end, pattern_end, postfix_end,
    postfix_rest_end, program_end, root_child_end, root_paren_end, roots_end, self_at, shape_of,
    sig, sig_end, sig_items_end, sigs_end, statement_end, stmts_end, struct_child_end,
    struct_end, struct_items_end, tok, type_args_end, type_end, variant_end, variants_end,
    variants_count, struct_items_count, sigs_count, methods_count, ffi_fns_count, roots_count,
};
use crate::text::{decimal, decimal_digits};
use crate::ast::{
    binary_parts, body_is, body_count, placed_body, lemma_placed_body_grow, lemma_arms_count_push, placed_expr, placed_exprs, placed_inits, placed_block, placed_stmts, placed_statement, placed_match, placed_arms, expr_slot, block_slot, match_slot, opt_count, lemma_placed_expr_grow, lemma_placed_exprs_grow, lemma_placed_inits_grow, lemma_placed_block_grow, lemma_placed_stmts_grow, lemma_placed_statement_grow, lemma_placed_match_grow, lemma_placed_arms_grow, expr_count, exprs_count, inits_count, block_count, stmts_count, statement_count, match_count, arms_count, one_expr, one_stmt, one_block, one_match, one_init, one_arm, opt_type_view, params_are, lemma_params_are_grow,
    lemma_params_are_push, ParamView, lemma_body_is_grow, BodyView, pattern_views, BlockView, ExprView, MatchView, PatternView, StmtView, arms_are, block_is, expr_is,
    exprs_are, inits_are, match_is, statement_is, stmt_is, stmts_are, lemma_stmts_are_push, lemma_arms_are_grow,
    lemma_block_is_grow, lemma_expr_is_grow, lemma_exprs_are_grow, lemma_inits_are_grow,
    lemma_match_is_grow, lemma_statement_is_grow, lemma_stmts_are_grow,
};
use crate::syntax::{
    add_rest_tree, add_tree, and_rest_tree, and_tree, args_tree, arms_tree, atom_tree,
    block_tree, compare_tree, expr_tree, inits_tree, iteration_tree, loop_tree, match_tree,
    more_patterns_tree, mul_rest_tree, mul_tree, pattern_tree, patterns_tree, postfix_op_tree, or_rest_tree, or_tree, postfix_rest_tree, postfix_tree,
    statement_tree, stmts_tree, body_tree, head_tree, last_type, param_tree, sig_items_tree,
    sig_starts, ffi_items_tree, ffi_starts, span_at, span_through, method_body_tree, method_starts, root_starts,
    lemma_stmts_end, lemma_stmts_step, lemma_stmts_tail,
};
use crate::lexer::{LexError, lex, lex_errors, lex_messages, lex_message, lex_tokens, tokens_match};

verus! {

/// The text of the first token at or after `q` that is not a newline, when it is an
/// identifier.
pub open spec fn text_of(t: Seq<Spanned>, q: int) -> Seq<char> {
    t[sig(shape_of(t), q)].token.spec_ident()
}

/// The type parameter bounded by the names `all`; a single name is a plain parameter.
pub open spec fn param_view(all: Seq<Seq<char>>) -> TypeView {
    if all.len() == 1 {
        TypeView::Param(all[0])
    } else {
        TypeView::BoundedParam(all)
    }
}

/// The type expression that the tokens from `p` spell, and where it ends; `None` where
/// no type starts. It follows `type_end` and names what it reads.
pub open spec fn type_tree(t: Seq<Spanned>, p: int) -> Option<(TypeView, int)>
    decreases t.len() - p, 0nat,
{
    let s = shape_of(t);
    if !(0 <= p <= t.len()) {
        None
    } else {
        match kind_at(s, p) {
            Some(TokenKind::LBracket) => match tok(s, after(s, p), TokenKind::PascalIdent) {
                Some(q) => if p < q <= t.len() {
                    match type_args_tree(t, q) {
                        Some((args, r)) => match tok(s, r, TokenKind::RBracket) {
                            Some(e) => Some(
                                (TypeView::Application(text_of(t, after(s, p)), args), e),
                            ),
                            None => None,
                        },
                        None => None,
                    }
                } else {
                    None
                },
                None => None,
            },
            Some(TokenKind::Dollar) => match tok(s, after(s, p), TokenKind::PascalIdent) {
                Some(q) => match bound_names(t, q) {
                    Some((bs, e)) => Some((param_view(seq![text_of(t, after(s, p))] + bs), e)),
                    None => None,
                },
                None => None,
            },
            Some(TokenKind::PascalIdent) => Some((TypeView::Simple(text_of(t, p)), after(s, p))),
            _ => None,
        }
    }
}

/// The arguments of a type application from `q`, up to its `]`.
pub open spec fn type_args_tree(t: Seq<Spanned>, q: int) -> Option<(Seq<TypeView>, int)>
    decreases t.len() - q, 1nat,
{
    let s = shape_of(t);
    if !(0 <= q <= t.len()) {
        None
    } else if kind_at(s, q) == Some(TokenKind::RBracket) {
        Some((Seq::empty(), q))
    } else if kind_at(s, q) is None {
        None
    } else {
        match type_tree(t, q) {
            Some((a, r)) => if q < r <= t.len() {
                match type_args_tree(t, r) {
                    Some((rest, e)) => Some((seq![a] + rest, e)),
                    None => None,
                }
            } else {
                None
            },
            None => None,
        }
    }
}

/// The further bound names `& Pascal` of a type parameter from `q`.
pub open spec fn bound_names(t: Seq<Spanned>, q: int) -> Option<(Seq<Seq<char>>, int)>
    decreases t.len() - q,
{
    let s = shape_of(t);
    if !(0 <= q <= t.len()) {
        None
    } else if kind_at(s, q) == Some(TokenKind::Ampersand) {
        match tok(s, after(s, q), TokenKind::PascalIdent) {
            Some(r) => if q < r <= t.len() {
                match bound_names(t, r) {
                    Some((bs, e)) => Some((seq![text_of(t, after(s, q))] + bs, e)),
                    None => None,
                }
            } else {
                None
            },
            None => None,
        }
    } else {
        Some((Seq::empty(), q))
    }
}

/// The identifiers of an import from `q`, up to its `]`.
pub open spec fn names_from(t: Seq<Spanned>, q: int) -> Seq<Seq<char>>
    decreases t.len() - q,
{
    let s = shape_of(t);
    if !(0 <= q <= t.len()) || kind_at(s, q) == Some(TokenKind::RBracket) {
        Seq::empty()
    } else {
        match ident(s, q) {
            Some(r) => if q < r <= t.len() {
                seq![text_of(t, q)] + names_from(t, r)
            } else {
                Seq::empty()
            },
            None => Seq::empty(),
        }
    }
}

/// The exports and the imports (module and names) of the module declaration from `q`,
/// up to its `)`.
pub open spec fn module_items_tree(t: Seq<Spanned>, q: int) -> (
    Seq<Seq<char>>,
    Seq<(Seq<char>, Seq<Seq<char>>)>,
)
    decreases t.len() - q,
{
    let s = shape_of(t);
    if !(0 <= q <= t.len()) || kind_at(s, q) == Some(TokenKind::RParen) || kind_at(s, q) is None {
        (Seq::empty(), Seq::empty())
    } else if kind_at(s, q) == Some(TokenKind::LBracket) {
        match tok(s, after(s, q), TokenKind::PascalIdent) {
            Some(q1) => match names_end(s, q1) {
                Some(q2) => match tok(s, q2, TokenKind::RBracket) {
                    Some(r) => if q < r <= t.len() {
                        let rest = module_items_tree(t, r);
                        (rest.0, seq![(text_of(t, after(s, q)), names_from(t, q1))] + rest.1)
                    } else {
                        (Seq::empty(), Seq::empty())
                    },
                    None => (Seq::empty(), Seq::empty()),
                },
                None => (Seq::empty(), Seq::empty()),
            },
            None => (Seq::empty(), Seq::empty()),
        }
    } else {
        match ident(s, q) {
            Some(r) => if q < r <= t.len() {
                let rest = module_items_tree(t, r);
                (seq![text_of(t, q)] + rest.0, rest.1)
            } else {
                (Seq::empty(), Seq::empty())
            },
            None => (Seq::empty(), Seq::empty()),
        }
    }
}

/// What the struct member that the tokens spell from `p` says.
pub open spec fn member_tree(t: Seq<Spanned>, p: int) -> MemberView {
    let s = shape_of(t);
    if kind_at(s, p) == Some(TokenKind::LParen) {
        MemberView::Typed(
            text_of(t, after(s, p)),
            (type_tree(t, after(s, after(s, p)))->0).0,
            span_through(t, p, struct_child_end(s, p)->0),
        )
    } else {
        MemberView::Bare(text_of(t, p), span_through(t, p, struct_child_end(s, p)->0))
    }
}

/// What the members of a struct from `q` say, up to its `}`.
pub open spec fn members_from(t: Seq<Spanned>, q: int) -> Seq<MemberView>
    decreases t.len() - q,
{
    let s = shape_of(t);
    if !(0 <= q <= t.len()) || kind_at(s, q) == Some(TokenKind::RBrace) || kind_at(s, q) is None {
        Seq::empty()
    } else {
        match struct_child_end(s, q) {
            Some(r) => if q < r <= t.len() {
                seq![member_tree(t, q)] + members_from(t, r)
            } else {
                Seq::empty()
            },
            None => Seq::empty(),
        }
    }
}

/// The field that a struct member makes for a struct variant: a bare name is typed by
/// itself.
pub open spec fn field_of_member(m: MemberView) -> (Seq<char>, TypeView, Span) {
    match m {
        MemberView::Typed(n, ty, sp) => (n, ty, sp),
        MemberView::Bare(n, sp) => (n, TypeView::Simple(n), sp),
        MemberView::Nested => (Seq::empty(), TypeView::Simple(Seq::empty()), Span { start: 0, end: 0 }),
    }
}

/// The fields that the members `ms` make for a struct variant.
pub open spec fn fields_of_members(ms: Seq<MemberView>) -> Seq<(Seq<char>, TypeView, Span)> {
    ms.map_values(|m: MemberView| field_of_member(m))
}

/// What the enum member that the tokens spell from `p` says.
pub open spec fn variant_tree(t: Seq<Spanned>, p: int) -> VariantView {
    let s = shape_of(t);
    match kind_at(s, p) {
        Some(TokenKind::LParen) => {
            let q = after(s, after(s, p));
            if kind_at(s, q) == Some(TokenKind::RParen) {
                VariantView::Unit(text_of(t, after(s, p)), span_through(t, p, variant_end(s, p)->0))
            } else {
                VariantView::Data(
                    text_of(t, after(s, p)),
                    (type_tree(t, q)->0).0,
                    span_through(t, p, variant_end(s, p)->0),
                )
            }
        },
        Some(TokenKind::LBrace) => VariantView::Record(
            text_of(t, after(s, p)),
            fields_of_members(members_from(t, after(s, after(s, p)))),
            span_through(t, p, variant_end(s, p)->0),
        ),
        _ => VariantView::Unit(text_of(t, p), span_through(t, p, variant_end(s, p)->0)),
    }
}

/// What the members of an enum from `q` say, up to its `)`.
pub open spec fn variants_from(t: Seq<Spanned>, q: int) -> Seq<VariantView>
    decreases t.len() - q,
{
    let s = shape_of(t);
    if !(0 <= q <= t.len()) || kind_at(s, q) == Some(TokenKind::RParen) || kind_at(s, q) is None {
        Seq::empty()
    } else {
        match variant_end(s, q) {
            Some(r) => if q < r <= t.len() {
                seq![variant_tree(t, q)] + variants_from(t, r)
            } else {
                Seq::empty()
            },
            None => Seq::empty(),
        }
    }
}

/// What the top-level construct that the tokens spell from `p` is, and its names.
pub open spec fn root_tree(t: Seq<Spanned>, p: int) -> RootView {
    let s = shape_of(t);
    let p1 = after(s, p);
    match kind_at(s, p) {
        Some(TokenKind::LParen) => if kind_at(s, p1) == Some(TokenKind::PascalIdent) {
            RootView::Enum(text_of(t, p1))
        } else {
            RootView::TraitDecl(text_of(t, p1))
        },
        Some(TokenKind::LBracket) => RootView::TraitImpl(text_of(t, p1), text_of(t, after(s, p1))),
        Some(TokenKind::LBrace) => RootView::Struct(text_of(t, p1)),
        Some(TokenKind::LBracePipe) => RootView::Const(text_of(t, p1)),
        Some(TokenKind::LParenPipe) => RootView::Ffi(text_of(t, p1)),
        Some(TokenKind::LBracketPipe) => RootView::Process,
        _ => RootView::Newtype(text_of(t, p)),
    }
}

/// What the top-level constructs from `q` are, up to where only newlines remain.
pub open spec fn roots_from(t: Seq<Spanned>, q: int) -> Seq<RootView>
    decreases t.len() - q,
{
    let s = shape_of(t);
    if !(0 <= q <= t.len()) || kind_at(s, q) is None {
        Seq::empty()
    } else {
        match root_child_end(s, q) {
            Some(r) => if q < r <= t.len() {
                seq![root_tree(t, q)] + roots_from(t, r)
            } else {
                Seq::empty()
            },
            None => Seq::empty(),
        }
    }
}

/// What the constructs `cs` are, and their names.
pub open spec fn root_views(cs: Seq<RootChild>) -> Seq<RootView> {
    cs.map_values(|c: RootChild| c.root_view())
}

/// The literal value carries what the literal token carries.
pub open spec fn literal_of(v: LiteralValue, t: Token) -> bool {
    match (v, t) {
        (LiteralValue::Int(a), Token::Integer(b)) => a == b,
        (LiteralValue::Float(a), Token::Float(b)) => a@ == b@,
        (LiteralValue::Str(a), Token::StringLit(b)) => a@ == b@,
        _ => false,
    }
}

/// A call agrees with a grammar rule: it succeeds exactly when the rule reads from
/// where the call started, and then it stops where the rule ends.
pub open spec fn agrees(ok: bool, rule: Option<int>, end: int) -> bool {
    &&& ok <==> rule is Some
    &&& ok ==> rule == Some(end)
}

/// "expected `what`, got ...": the debug rendering of the token found in `Some(..)`, or
/// `None` where the input ends.
pub open spec fn unexpected_found_words(what: Seq<char>, got: Option<Token>) -> Seq<char> {
    "expected "@ + what + ", got "@ + option_debug(got)
}

/// "expected `what`, got ... at pos `pos`", with the position in decimal.
pub open spec fn unexpected_words(what: Seq<char>, got: Option<Token>, pos: nat) -> Seq<char> {
    unexpected_found_words(what, got) + " at pos "@ + decimal_digits(pos)
}

/// "expected `what`, got ...".
fn unexpected_found(what: &str, got: Option<&Token>) -> (r: String)
    ensures
        r@ == unexpected_found_words(what@, match got {
            Some(t) => Some(*t),
            None => None,
        }),
{
    let mut m = String::from_str("expected ");
    m.append(what);
    m.append(", got ");
    let d = option_debug_text(got);
    m.append(d.as_str());
    m
}

/// "expected `what`, got ... at pos `pos`".
fn unexpected(what: &str, got: Option<&Token>, pos: usize) -> (r: String)
    ensures
        r@ == unexpected_words(what@, match got {
            Some(t) => Some(*t),
            None => None,
        }, pos as nat),
{
    let mut m = unexpected_found(what, got);
    m.append(" at pos ");
    let d = decimal(pos as u64);
    m.append(d.as_str());
    m
}

/// The text of an identifier token as a name.
fn name_of(t: &Token) -> (n: Name)
    ensures
        n.0@ == t.spec_ident(),
{
    match t {
        Token::PascalIdent(s) => Name::new(s.as_str()),
        Token::CamelIdent(s) => Name::new(s.as_str()),
        _ => {
            proof {
                reveal_strlit("");
            }
            Name::new("")
        },
    }
}

/// A tree read in `a` is read in `b` when `b` extends `a`, wherever `b`'s indices fit.
/// Where the indices of `b` fit in `u32`, `b` holds exactly `n` more nodes of each kind
/// than `a`.
pub open spec fn grew(a: Arena, b: Arena, n: Sizes) -> bool {
    b.indexable() ==> b.sizes() == a.sizes().plus(n)
}

proof fn lemma_grew2(a0: Arena, a1: Arena, a2: Arena, n1: Sizes, n2: Sizes)
    requires
        a2.extends(&a1),
        grew(a0, a1, n1),
        grew(a1, a2, n2),
    ensures
        grew(a0, a2, n1.plus(n2)),
{
    if a2.indexable() {
        assert(a1.indexable());
    }
}

proof fn lemma_grew3(a0: Arena, a1: Arena, a2: Arena, a3: Arena, n1: Sizes, n2: Sizes, n3: Sizes)
    requires
        a2.extends(&a1),
        a3.extends(&a2),
        grew(a0, a1, n1),
        grew(a1, a2, n2),
        grew(a2, a3, n3),
    ensures
        grew(a0, a3, n1.plus(n2).plus(n3)),
{
    lemma_grew2(a0, a1, a2, n1, n2);
    lemma_grew2(a0, a2, a3, n1.plus(n2), n3);
}

/// A binary node stored right after its right operand, whose operands were stored in
/// reading order from `z` on, is stored in reading order from `z` on.
proof fn lemma_place_binary(
    z: Sizes,
    a0: Arena,
    a1: Arena,
    a2: Arena,
    l: ExprRef,
    r: ExprRef,
    vl: ExprView,
    vr: ExprView,
    k: TokenKind,
    sp: Span,
)
    requires
        a1.extends(&a0),
        a2.extends(&a1),
        a2.exprs@.len() == a1.exprs@.len() + 1,
        binary_parts(a2.exprs@.last()) == Some((k, l, r, sp)),
        a0.indexable() ==> a0.sizes() == z.plus(expr_count(vl)),
        a0.indexable() ==> l.0 + 1 == a0.exprs@.len() && placed_expr(a0, z, vl),
        a1.indexable() ==> a1.sizes() == a0.sizes().plus(expr_count(vr)),
        a1.indexable() ==> r.0 + 1 == a1.exprs@.len() && placed_expr(a1, a0.sizes(), vr),
    ensures
        a2.indexable() ==> placed_expr(a2, z, ExprView::Binary(k, Box::new(vl), Box::new(vr), sp)),
{
    if a2.indexable() {
        assert(a1.indexable());
        assert(a0.indexable());
        lemma_placed_expr_grow(a0, a2, z, vl);
        lemma_placed_expr_grow(a1, a2, a0.sizes(), vr);
        reveal(placed_expr);
        reveal(placed_exprs);
        reveal(placed_inits);
        reveal(placed_block);
        reveal(placed_stmts);
        reveal(placed_statement);
        reveal(placed_match);
        reveal(placed_arms);
        let v = ExprView::Binary(k, Box::new(vl), Box::new(vr), sp);
        assert(expr_slot(z, v) == a1.exprs@.len());
    }
}

/// One more expression, stored right after the ones before it, extends their run.
proof fn lemma_place_exprs_push(
    a0: Arena,
    a1: Arena,
    z: Sizes,
    refs: Seq<ExprRef>,
    vs: Seq<ExprView>,
    r: ExprRef,
    x: ExprView,
)
    requires
        a1.extends(&a0),
        a0.indexable() ==> a0.sizes() == z.plus(exprs_count(vs)) && placed_exprs(a0, z, refs, vs),
        a1.indexable() ==> a1.sizes() == a0.sizes().plus(expr_count(x)) && r.0 + 1
            == a1.exprs@.len() && placed_expr(a1, a0.sizes(), x),
    ensures
        a1.indexable() ==> placed_exprs(a1, z, refs.push(r), vs.push(x)),
        a1.indexable() ==> a1.sizes() == z.plus(exprs_count(vs.push(x))),
{
    assert(vs.push(x).drop_last() =~= vs);
    assert(refs.push(r).drop_last() =~= refs);
    if a1.indexable() {
        assert(a0.indexable());
        lemma_placed_exprs_grow(a0, a1, z, refs, vs);
        reveal(placed_expr);
        reveal(placed_exprs);
        reveal(placed_inits);
        reveal(placed_block);
        reveal(placed_stmts);
        reveal(placed_statement);
        reveal(placed_match);
        reveal(placed_arms);
    }
}

/// The empty run of nodes is placed anywhere.
proof fn lemma_place_empty(a: Arena, z: Sizes)
    ensures
        placed_exprs(a, z, Seq::empty(), Seq::empty()),
        placed_inits(a, z, Seq::empty(), Seq::empty()),
        placed_stmts(a, z, Seq::empty(), Seq::empty()),
        placed_arms(a, z, Seq::empty(), Seq::empty()),
{
        reveal(placed_expr);
        reveal(placed_exprs);
        reveal(placed_inits);
        reveal(placed_block);
        reveal(placed_stmts);
        reveal(placed_statement);
        reveal(placed_match);
        reveal(placed_arms);
}

/// One more field initializer, its value stored right after the ones before it and the
/// initializer right after its value, extends their run.
proof fn lemma_place_inits_push(
    a0: Arena,
    a1: Arena,
    a2: Arena,
    z: Sizes,
    refs: Seq<FieldInitRef>,
    vs: Seq<(Seq<char>, ExprView)>,
    r: FieldInitRef,
    value: ExprRef,
    x: (Seq<char>, ExprView),
)
    requires
        a1.extends(&a0),
        a2.extends(&a1),
        a0.indexable() ==> a0.sizes() == z.plus(inits_count(vs)) && placed_inits(a0, z, refs, vs),
        a1.indexable() ==> a1.sizes() == a0.sizes().plus(expr_count(x.1)) && value.0 + 1
            == a1.exprs@.len() && placed_expr(a1, a0.sizes(), x.1),
        a2.field_inits@.len() == a1.field_inits@.len() + 1,
        a2.field_inits@.last().value == value,
        a2.indexable() ==> r.0 == a1.field_inits@.len(),
    ensures
        a2.indexable() ==> placed_inits(a2, z, refs.push(r), vs.push(x)),
{
    assert(vs.push(x).drop_last() =~= vs);
    assert(refs.push(r).drop_last() =~= refs);
    if a2.indexable() {
        assert(a1.indexable());
        assert(a0.indexable());
        lemma_placed_inits_grow(a0, a2, z, refs, vs);
        lemma_placed_expr_grow(a1, a2, a0.sizes(), x.1);
        reveal(placed_expr);
        reveal(placed_exprs);
        reveal(placed_inits);
        reveal(placed_block);
        reveal(placed_stmts);
        reveal(placed_statement);
        reveal(placed_match);
        reveal(placed_arms);
    }
}

/// One more statement, what it refers to stored right after the ones before it and the
/// statement right after that, extends their run.
proof fn lemma_place_stmts_push(
    a0: Arena,
    a1: Arena,
    a2: Arena,
    z: Sizes,
    refs: Seq<StmtRef>,
    vs: Seq<StmtView>,
    r: StmtRef,
    st: Statement,
    x: StmtView,
)
    requires
        a1.extends(&a0),
        a2.extends(&a1),
        a0.indexable() ==> a0.sizes() == z.plus(stmts_count(vs)) && placed_stmts(a0, z, refs, vs),
        a1.indexable() ==> a1.sizes() == a0.sizes().plus(statement_count(x)) && placed_statement(
            a1,
            a0.sizes(),
            st,
            x,
        ),
        a2.stmts@.len() == a1.stmts@.len() + 1,
        a2.stmts@.last() == st,
        a2.indexable() ==> r.0 == a1.stmts@.len(),
    ensures
        a2.indexable() ==> placed_stmts(a2, z, refs.push(r), vs.push(x)),
{
    assert(vs.push(x).drop_last() =~= vs);
    assert(refs.push(r).drop_last() =~= refs);
    if a2.indexable() {
        assert(a1.indexable());
        assert(a0.indexable());
        lemma_placed_stmts_grow(a0, a2, z, refs, vs);
        lemma_placed_statement_grow(a1, a2, a0.sizes(), st, x);
        reveal(placed_expr);
        reveal(placed_exprs);
        reveal(placed_inits);
        reveal(placed_block);
        reveal(placed_stmts);
        reveal(placed_statement);
        reveal(placed_match);
        reveal(placed_arms);
    }
}

/// One more arm, stored right after the ones before it, extends their run.
proof fn lemma_place_arms_push(
    a0: Arena,
    a1: Arena,
    z: Sizes,
    refs: Seq<MatchArmRef>,
    vs: Seq<(Seq<PatternView>, ExprView)>,
    r: MatchArmRef,
    x: (Seq<PatternView>, ExprView),
)
    requires
        a1.extends(&a0),
        a0.indexable() ==> a0.sizes() == z.plus(arms_count(vs)) && placed_arms(a0, z, refs, vs),
        a1.indexable() ==> placed_arms(a1, a0.sizes(), seq![r], seq![x]),
    ensures
        a1.indexable() ==> placed_arms(a1, z, refs.push(r), vs.push(x)),
{
    assert(vs.push(x).drop_last() =~= vs);
    assert(refs.push(r).drop_last() =~= refs);
    assert(seq![x].drop_last() =~= Seq::<(Seq<PatternView>, ExprView)>::empty());
    assert(seq![r].drop_last() =~= Seq::<MatchArmRef>::empty());
    if a1.indexable() {
        assert(a0.indexable());
        lemma_placed_arms_grow(a0, a1, z, refs, vs);
        reveal(placed_expr);
        reveal(placed_exprs);
        reveal(placed_inits);
        reveal(placed_block);
        reveal(placed_stmts);
        reveal(placed_statement);
        reveal(placed_match);
        reveal(placed_arms);
        assert(arms_count(Seq::<(Seq<PatternView>, ExprView)>::empty()) == Sizes::none());
    }
}

proof fn keep_expr(a: Arena, b: Arena, e: ExprRef, v: ExprView)
    requires
        b.extends(&a),
        a.indexable() ==> expr_is(a, e, v),
    ensures
        b.indexable() ==> expr_is(b, e, v),
{
    if b.indexable() {
        lemma_expr_is_grow(a, b, e, v);
    }
}

/// `keep_expr` for a sequence of expressions.
proof fn keep_exprs(a: Arena, b: Arena, refs: Seq<ExprRef>, vs: Seq<ExprView>)
    requires
        b.extends(&a),
        a.indexable() ==> exprs_are(a, refs, vs),
    ensures
        b.indexable() ==> exprs_are(b, refs, vs),
{
    if b.indexable() {
        lemma_exprs_are_grow(a, b, refs, vs);
    }
}

/// `keep_expr` for field initializers.
proof fn keep_inits(a: Arena, b: Arena, refs: Seq<FieldInitRef>, vs: Seq<(Seq<char>, ExprView)>)
    requires
        b.extends(&a),
        a.indexable() ==> inits_are(a, refs, vs),
    ensures
        b.indexable() ==> inits_are(b, refs, vs),
{
    if b.indexable() {
        lemma_inits_are_grow(a, b, refs, vs);
    }
}

/// `keep_expr` for a block.
proof fn keep_block(a: Arena, b: Arena, r: BlockRef, v: BlockView)
    requires
        b.extends(&a),
        a.indexable() ==> block_is(a, r, v),
    ensures
        b.indexable() ==> block_is(b, r, v),
{
    if b.indexable() {
        lemma_block_is_grow(a, b, r, v);
    }
}

/// `keep_expr` for a match.
proof fn keep_match(a: Arena, b: Arena, m: MatchRef, v: MatchView)
    requires
        b.extends(&a),
        a.indexable() ==> match_is(a, m, v),
    ensures
        b.indexable() ==> match_is(b, m, v),
{
    if b.indexable() {
        lemma_match_is_grow(a, b, m, v);
    }
}

/// `keep_expr` for a statement held by value.
proof fn keep_statement(a: Arena, b: Arena, st: Statement, v: StmtView)
    requires
        b.extends(&a),
        a.indexable() ==> statement_is(a, st, v),
    ensures
        b.indexable() ==> statement_is(b, st, v),
{
    if b.indexable() {
        lemma_statement_is_grow(a, b, st, v);
    }
}

/// `keep_expr` for a sequence of statements.
proof fn keep_stmts(a: Arena, b: Arena, refs: Seq<StmtRef>, vs: Seq<StmtView>)
    requires
        b.extends(&a),
        a.indexable() ==> stmts_are(a, refs, vs),
    ensures
        b.indexable() ==> stmts_are(b, refs, vs),
{
    if b.indexable() {
        lemma_stmts_are_grow(a, b, refs, vs);
    }
}

/// `keep_expr` for match arms.
proof fn keep_arms(a: Arena, b: Arena, refs: Seq<MatchArmRef>, vs: Seq<(Seq<PatternView>, ExprView)>)
    requires
        b.extends(&a),
        a.indexable() ==> arms_are(a, refs, vs),
    ensures
        b.indexable() ==> arms_are(b, refs, vs),
{
    if b.indexable() {
        lemma_arms_are_grow(a, b, refs, vs);
    }
}

/// Whether `k` is a comparison operator.
fn is_comparison_kind(k: TokenKind) -> (r: bool)
    ensures
        r == is_comparison(k),
{
    match k {
        TokenKind::DoubleEquals | TokenKind::NotEqual | TokenKind::LessThan
        | TokenKind::GreaterThan | TokenKind::LessThanOrEqual | TokenKind::GreaterThanOrEqual => true,
        _ => false,
    }
}

/// The comparison node of operator `k` over `l` and `r`.
fn comparison(k: TokenKind, l: ExprRef, r: ExprRef, s: Span) -> (e: Expr)
    requires
        is_comparison(k),
    ensures
        binary_parts(e) == Some((k, l, r, s)),
        forall|sz: Sizes| #[trigger] e.refs_ok(sz) == (l.0 < sz.exprs && r.0 < sz.exprs),
{
    match k {
        TokenKind::DoubleEquals => Expr::BinEq { left: l, right: r, span: s },
        TokenKind::NotEqual => Expr::BinNotEq { left: l, right: r, span: s },
        TokenKind::LessThan => Expr::BinLt { left: l, right: r, span: s },
        TokenKind::GreaterThan => Expr::BinGt { left: l, right: r, span: s },
        TokenKind::LessThanOrEqual => Expr::BinLtEq { left: l, right: r, span: s },
        _ => Expr::BinGtEq { left: l, right: r, span: s },
    }
}

/// `n` parameters and nothing else.
pub open spec fn params_n(n: nat) -> Sizes {
    Sizes {
        exprs: 0,
        stmts: 0,
        blocks: 0,
        matches: 0,
        field_inits: 0,
        enum_children: 0,
        struct_children: 0,
        method_defs: 0,
        match_arms: 0,
        params: n,
    }
}

/// The nodes the method definition read from `p` adds: its parameters, then the nodes
/// of its body.
pub open spec fn method_count(t: Seq<Spanned>, p: int) -> Sizes {
    let s = shape_of(t);
    params_n(head_tree(t, after(s, after(s, p))).0.len()).plus(body_count(method_body_tree(t, p)))
}

/// The method definition `md`, read from `p`, was stored in reading order from the
/// counts `z` on: its parameters one after another, then its body.
pub open spec fn placed_method(a: Arena, z: Sizes, md: MethodDef, t: Seq<Spanned>, p: int) -> bool {
    let s = shape_of(t);
    let n = head_tree(t, after(s, after(s, p))).0.len();
    &&& md.params@.len() == n
    &&& forall|i: int| 0 <= i < n ==> #[trigger] md.params@[i].0 == z.params + i
    &&& placed_body(a, z.plus(params_n(n)), md.body, method_body_tree(t, p))
}

/// `n` struct members and nothing else.
pub open spec fn struct_children_n(n: nat) -> Sizes {
    Sizes {
        exprs: 0,
        stmts: 0,
        blocks: 0,
        matches: 0,
        field_inits: 0,
        enum_children: 0,
        struct_children: n,
        method_defs: 0,
        match_arms: 0,
        params: 0,
    }
}

/// `n` enum members and nothing else.
pub open spec fn enum_children_n(n: nat) -> Sizes {
    Sizes {
        exprs: 0,
        stmts: 0,
        blocks: 0,
        matches: 0,
        field_inits: 0,
        enum_children: n,
        struct_children: 0,
        method_defs: 0,
        match_arms: 0,
        params: 0,
    }
}

/// How many struct members a variant stores: the fields of a struct variant.
pub open spec fn variant_members(v: VariantView) -> nat {
    match v {
        VariantView::Record(_, fs, _) => fs.len(),
        _ => 0,
    }
}

/// How many struct members the variants `vs` store together.
pub open spec fn members_total(vs: Seq<VariantView>) -> nat
    decreases vs.len(),
{
    if vs.len() == 0 {
        0
    } else {
        members_total(vs.drop_last()) + variant_members(vs.last())
    }
}

/// How many parameters the signature read from `p` has.
pub open spec fn sig_param_count(t: Seq<Spanned>, p: int) -> nat {
    let s = shape_of(t);
    sig_items_tree(t, after(s, after(s, p))).0.len()
}

/// How many parameters the signatures starting at `ss` have together.
pub open spec fn sig_params_total(t: Seq<Spanned>, ss: Seq<int>) -> nat
    decreases ss.len(),
{
    if ss.len() == 0 {
        0
    } else {
        sig_params_total(t, ss.drop_last()) + sig_param_count(t, ss.last())
    }
}

/// How many parameters the foreign function read from `p` has.
pub open spec fn ffi_param_count(t: Seq<Spanned>, p: int) -> nat {
    let s = shape_of(t);
    ffi_items_tree(t, after(s, after(s, p))).0.len()
}

/// How many parameters the foreign functions starting at `fs` have together.
pub open spec fn ffi_params_total(t: Seq<Spanned>, fs: Seq<int>) -> nat
    decreases fs.len(),
{
    if fs.len() == 0 {
        0
    } else {
        ffi_params_total(t, fs.drop_last()) + ffi_param_count(t, fs.last())
    }
}

/// The nodes the top-level construct read from `p` adds, by its kind: the members of
/// an enum and of its struct variants, the members of a struct, the parameters of a
/// trait's signatures or of foreign functions, the methods of an implementation, the
/// statements of a process; a newtype and a constant add none.
pub open spec fn root_count(t: Seq<Spanned>, p: int) -> Sizes {
    let s = shape_of(t);
    let p1 = after(s, p);
    let p2 = after(s, p1);
    let p3 = after(s, p2);
    match kind_at(s, p) {
        Some(TokenKind::LParen) => if kind_at(s, p1) == Some(TokenKind::PascalIdent) {
            enum_children_n(variants_count(s, p2)).plus(
                struct_children_n(members_total(variants_from(t, p2))),
            )
        } else {
            params_n(sig_params_total(t, sig_starts(s, p3)))
        },
        Some(TokenKind::LBracket) => methods_total(t, method_starts(s, impl_methods_at(s, p))),
        Some(TokenKind::LBrace) => struct_children_n(struct_items_count(s, p2)),
        Some(TokenKind::LParenPipe) => params_n(ffi_params_total(t, ffi_starts(s, p2))),
        Some(TokenKind::LBracketPipe) => block_count(stmts_tree(t, p1, TokenKind::RPipeBracket, true)),
        _ => Sizes::none(),
    }
}

/// The nodes the top-level constructs starting at `rs` add together.
pub open spec fn roots_total(t: Seq<Spanned>, rs: Seq<int>) -> Sizes
    decreases rs.len(),
{
    if rs.len() == 0 {
        Sizes::none()
    } else {
        roots_total(t, rs.drop_last()).plus(root_count(t, rs.last()))
    }
}

/// The top-level construct `c`, read from `p`, was stored in reading order from the
/// counts `z` on: its members, parameters or methods one after another, its statements
/// before its block.
pub open spec fn root_placed(a: Arena, z: Sizes, c: RootChild, t: Seq<Spanned>, p: int) -> bool {
    let s = shape_of(t);
    let p1 = after(s, p);
    let p2 = after(s, p1);
    let p3 = after(s, p2);
    match c {
        RootChild::Enum(e) => forall|k: int|
            0 <= k < e.children@.len() ==> #[trigger] e.children@[k].0 == z.enum_children + k,
        RootChild::Struct(d) => forall|k: int|
            0 <= k < d.children@.len() ==> #[trigger] d.children@[k].0 == z.struct_children + k,
        RootChild::TraitDecl(d) => forall|j: int, i: int|
            #![trigger d.signatures@[j].params@[i]]
            0 <= j < d.signatures@.len() && 0 <= i < d.signatures@[j].params@.len()
                ==> d.signatures@[j].params@[i].0 == z.params + sig_params_total(
                t,
                sig_starts(s, p3).take(j),
            ) + i,
        RootChild::Ffi(f) => forall|j: int, i: int|
            #![trigger f.functions@[j].params@[i]]
            0 <= j < f.functions@.len() && 0 <= i < f.functions@[j].params@.len()
                ==> f.functions@[j].params@[i].0 == z.params + ffi_params_total(
                t,
                ffi_starts(s, p2).take(j),
            ) + i,
        RootChild::TraitImpl(i) => placed_methods(
            a,
            z,
            i.methods@,
            t,
            method_starts(s, impl_methods_at(s, p)),
        ),
        RootChild::Process(b) => b.0 == block_slot(z, stmts_tree(t, p1, TokenKind::RPipeBracket, true))
            && placed_block(a, z, stmts_tree(t, p1, TokenKind::RPipeBracket, true)),
        _ => true,
    }
}

proof fn lemma_root_placed_grow(a: Arena, b: Arena, z: Sizes, c: RootChild, t: Seq<Spanned>, p: int)
    requires
        b.extends(&a),
        root_placed(a, z, c, t, p),
    ensures
        root_placed(b, z, c, t, p),
{
    let s = shape_of(t);
    match c {
        RootChild::TraitImpl(i) => {
            lemma_placed_methods_grow(a, b, z, i.methods@, t, method_starts(s, impl_methods_at(s, p)));
        },
        RootChild::Process(_) => {
            lemma_placed_block_grow(a, b, z, stmts_tree(t, after(s, p), TokenKind::RPipeBracket, true));
        },
        _ => {},
    }
}

/// One method definition and nothing else.
pub open spec fn one_method() -> Sizes {
    Sizes {
        exprs: 0,
        stmts: 0,
        blocks: 0,
        matches: 0,
        field_inits: 0,
        enum_children: 0,
        struct_children: 0,
        method_defs: 1,
        match_arms: 0,
        params: 0,
    }
}

/// The nodes the method definitions starting at `ps` add: each method's parameters and
/// body, then the method.
pub open spec fn methods_total(t: Seq<Spanned>, ps: Seq<int>) -> Sizes
    decreases ps.len(),
{
    if ps.len() == 0 {
        Sizes::none()
    } else {
        methods_total(t, ps.drop_last()).plus(method_count(t, ps.last())).plus(one_method())
    }
}

/// The methods at `refs`, read from `ps`, were stored one after another in reading order
/// from the counts `z` on, each after its parameters and body.
pub open spec fn placed_methods(a: Arena, z: Sizes, refs: Seq<MethodDefRef>, t: Seq<Spanned>, ps: Seq<int>) -> bool
    decreases ps.len(),
{
    &&& refs.len() == ps.len()
    &&& ps.len() > 0 ==> {
        let zl = z.plus(methods_total(t, ps.drop_last()));
        let k = zl.plus(method_count(t, ps.last())).method_defs;
        &&& placed_methods(a, z, refs.drop_last(), t, ps.drop_last())
        &&& refs.last().0 == k
        &&& k < a.method_defs@.len()
        &&& placed_method(a, zl, a.method_defs@[k as int], t, ps.last())
    }
}

proof fn lemma_placed_method_grow(a: Arena, b: Arena, z: Sizes, md: MethodDef, t: Seq<Spanned>, p: int)
    requires
        b.extends(&a),
        placed_method(a, z, md, t, p),
    ensures
        placed_method(b, z, md, t, p),
{
    let s = shape_of(t);
    let n = head_tree(t, after(s, after(s, p))).0.len();
    lemma_placed_body_grow(a, b, z.plus(params_n(n)), md.body, method_body_tree(t, p));
}

proof fn lemma_placed_methods_grow(a: Arena, b: Arena, z: Sizes, refs: Seq<MethodDefRef>, t: Seq<Spanned>, ps: Seq<int>)
    requires
        b.extends(&a),
        placed_methods(a, z, refs, t, ps),
    ensures
        placed_methods(b, z, refs, t, ps),
    decreases ps.len(),
{
    if ps.len() > 0 {
        let zl = z.plus(methods_total(t, ps.drop_last()));
        let k = zl.plus(method_count(t, ps.last())).method_defs;
        assert(b.method_defs@[k as int] == a.method_defs@[k as int]);
        lemma_placed_methods_grow(a, b, z, refs.drop_last(), t, ps.drop_last());
        lemma_placed_method_grow(a, b, zl, a.method_defs@[k as int], t, ps.last());
    }
}

/// The method definition `md`, read from `p`, holds in `a` what its tokens spell: its
/// name, its parameters, its return type and its body.
pub open spec fn method_holds(a: Arena, md: MethodDef, t: Seq<Spanned>, p: int) -> bool {
    let s = shape_of(t);
    &&& md.name.0@ == text_of(t, after(s, p))
    &&& md.span == span_through(t, p, method_end(s, p)->0)
    &&& body_is(a, md.body, method_body_tree(t, p))
    &&& params_are(a, md.params@, head_tree(t, after(s, after(s, p))).0)
    &&& opt_type_view(md.return_type) == head_tree(t, after(s, after(s, p))).1
}

/// The methods at `refs` in `a` hold what the tokens spell for the methods starting at
/// `starts`, in order.
pub open spec fn methods_hold(a: Arena, refs: Seq<MethodDefRef>, t: Seq<Spanned>, starts: Seq<int>) -> bool {
    &&& refs.len() == starts.len()
    &&& forall|j: int|
        0 <= j < refs.len() ==> (#[trigger] refs[j]).0 < a.method_defs@.len() && method_holds(
            a,
            a.method_defs@[refs[j].0 as int],
            t,
            starts[j],
        )
}

/// The signature `sg`, read from `p`, holds what its tokens spell: its name, its
/// parameters (in `a`) and its return type.
pub open spec fn sig_holds(a: Arena, sg: MethodSig, t: Seq<Spanned>, p: int) -> bool {
    let s = shape_of(t);
    let items = sig_items_tree(t, after(s, after(s, p)));
    &&& sg.name.0@ == text_of(t, after(s, p))
    &&& sg.span == span_through(t, p, sig_end(s, p)->0)
    &&& params_are(a, sg.params@, items.0)
    &&& opt_type_view(sg.return_type) == items.1
}

/// The foreign function `f`, read from `p`, holds what its tokens spell: its name, its
/// parameters (in `a`) and its return type.
pub open spec fn ffi_fn_holds(a: Arena, f: FfiFunction, t: Seq<Spanned>, p: int) -> bool {
    let s = shape_of(t);
    let items = ffi_items_tree(t, after(s, after(s, p)));
    &&& f.name.0@ == text_of(t, after(s, p))
    &&& f.span == span_through(t, p, ffi_fn_end(s, p)->0)
    &&& params_are(a, f.params@, items.0)
    &&& opt_type_view(f.return_type) == items.1
}

/// Where the methods of the trait implementation at `p` start: after `[trait Type [`.
pub open spec fn impl_methods_at(s: Seq<(TokenKind, bool)>, p: int) -> int {
    after(s, after(s, after(s, after(s, p))))
}

/// The top-level construct `c`, read from `p`, holds in `a` what its tokens spell: the
/// variants of an enum, the members of a struct, the type a newtype wraps, the type and
/// value of a constant, the statements of a process, the methods of an implementation.
pub open spec fn root_holds(a: Arena, c: RootChild, t: Seq<Spanned>, p: int) -> bool {
    let s = shape_of(t);
    let end = root_child_end(s, p)->0;
    match c {
        RootChild::Enum(e) => {
            let vs = variants_from(t, after(s, after(s, p)));
            &&& e.span == span_through(t, after(s, after(s, p)), end)
            &&& vs.len() == e.children@.len()
            &&& forall|k: int|
                0 <= k < vs.len() ==> (#[trigger] e.children@[k]).0 < a.enum_children@.len()
                    && a.enum_children@[e.children@[k].0 as int].variant_view() == vs[k]
        },
        RootChild::Struct(d) => {
            let ms = members_from(t, after(s, after(s, p)));
            &&& d.span == span_through(t, p, end)
            &&& ms.len() == d.children@.len()
            &&& forall|k: int|
                0 <= k < ms.len() ==> (#[trigger] d.children@[k]).0 < a.struct_children@.len()
                    && a.struct_children@[d.children@[k].0 as int].member_view() == ms[k]
        },
        RootChild::Newtype(n) => n.wraps.view_type() == (type_tree(t, after(s, p))->0).0
            && n.span == span_through(t, p, end),
        RootChild::Const(k) => {
            let q = after(s, after(s, p));
            &&& k.span == span_through(t, p, end)
            &&& k.typ.view_type() == (type_tree(t, q)->0).0
            &&& literal_of(k.value, t[sig(s, (type_tree(t, q)->0).1)].token)
        },
        RootChild::Process(b) => block_is(
            a,
            b,
            stmts_tree(t, after(shape_of(t), p), TokenKind::RPipeBracket, true),
        ),
        RootChild::TraitDecl(d) => {
            let ss = sig_starts(s, after(s, after(s, after(s, p))));
            &&& d.span == span_through(t, after(s, after(s, p)), end)
            &&& ss.len() == d.signatures@.len()
            &&& forall|j: int|
                0 <= j < ss.len() ==> sig_holds(a, #[trigger] d.signatures@[j], t, ss[j])
        },
        RootChild::Ffi(f) => {
            let fs = ffi_starts(s, after(s, after(s, p)));
            &&& f.span == span_through(t, p, end)
            &&& fs.len() == f.functions@.len()
            &&& forall|j: int|
                0 <= j < fs.len() ==> ffi_fn_holds(a, #[trigger] f.functions@[j], t, fs[j])
        },
        RootChild::TraitImpl(i) => i.span == span_through(t, p, end) && methods_hold(
            a,
            i.methods@,
            t,
            method_starts(shape_of(t), impl_methods_at(shape_of(t), p)),
        ),
        _ => true,
    }
}

/// `method_holds` is kept when the arena grows.
proof fn keep_method(a: Arena, b: Arena, md: MethodDef, t: Seq<Spanned>, p: int)
    requires
        b.extends(&a),
        method_holds(a, md, t, p),
    ensures
        method_holds(b, md, t, p),
{
    let s = shape_of(t);
    lemma_body_is_grow(a, b, md.body, method_body_tree(t, p));
    lemma_params_are_grow(a, b, md.params@, head_tree(t, after(s, after(s, p))).0);
}

/// `methods_hold` is kept when the arena grows.
proof fn keep_methods(a: Arena, b: Arena, refs: Seq<MethodDefRef>, t: Seq<Spanned>, starts: Seq<int>)
    requires
        b.extends(&a),
        a.indexable() ==> methods_hold(a, refs, t, starts),
    ensures
        b.indexable() ==> methods_hold(b, refs, t, starts),
{
    if b.indexable() {
        assert forall|j: int| 0 <= j < refs.len() implies (#[trigger] refs[j]).0
            < b.method_defs@.len() && method_holds(
            b,
            b.method_defs@[refs[j].0 as int],
            t,
            starts[j],
        ) by {
            assert(b.method_defs@[refs[j].0 as int] == a.method_defs@[refs[j].0 as int]);
            keep_method(a, b, a.method_defs@[refs[j].0 as int], t, starts[j]);
        }
    }
}

/// `root_holds` is kept when the arena grows.
proof fn keep_root(a: Arena, b: Arena, c: RootChild, t: Seq<Spanned>, p: int)
    requires
        b.extends(&a),
        a.indexable() ==> root_holds(a, c, t, p),
    ensures
        b.indexable() ==> root_holds(b, c, t, p),
{
    match c {
        RootChild::Process(r) => {
            keep_block(a, b, r, stmts_tree(t, after(shape_of(t), p), TokenKind::RPipeBracket, true));
        },
        RootChild::TraitImpl(i) => {
            keep_methods(
                a,
                b,
                i.methods@,
                t,
                method_starts(shape_of(t), impl_methods_at(shape_of(t), p)),
            );
        },
        RootChild::TraitDecl(d) => {
            if b.indexable() {
                let s = shape_of(t);
                let ss = sig_starts(s, after(s, after(s, after(s, p))));
                assert forall|j: int| 0 <= j < ss.len() implies sig_holds(
                    b,
                    #[trigger] d.signatures@[j],
                    t,
                    ss[j],
                ) by {
                    let sg = d.signatures@[j];
                    lemma_params_are_grow(
                        a,
                        b,
                        sg.params@,
                        sig_items_tree(t, after(s, after(s, ss[j]))).0,
                    );
                }
            }
        },
        RootChild::Ffi(f) => {
            if b.indexable() {
                let s = shape_of(t);
                let fs = ffi_starts(s, after(s, after(s, p)));
                assert forall|j: int| 0 <= j < fs.len() implies ffi_fn_holds(
                    b,
                    #[trigger] f.functions@[j],
                    t,
                    fs[j],
                ) by {
                    let g = f.functions@[j];
                    lemma_params_are_grow(
                        a,
                        b,
                        g.params@,
                        ffi_items_tree(t, after(s, after(s, fs[j]))).0,
                    );
                }
            }
        },
        RootChild::Enum(e) => {
            if b.indexable() {
                let vs = variants_from(t, after(shape_of(t), after(shape_of(t), p)));
                assert forall|k: int| 0 <= k < vs.len() implies (#[trigger] e.children@[k]).0
                    < b.enum_children@.len() && b.enum_children@[e.children@[k].0 as int].variant_view()
                    == vs[k] by {
                    assert(b.enum_children@[e.children@[k].0 as int]
                        == a.enum_children@[e.children@[k].0 as int]);
                }
            }
        },
        RootChild::Struct(d) => {
            if b.indexable() {
                let ms = members_from(t, after(shape_of(t), after(shape_of(t), p)));
                assert forall|k: int| 0 <= k < ms.len() implies (#[trigger] d.children@[k]).0
                    < b.struct_children@.len() && b.struct_children@[d.children@[k].0 as int].member_view()
                    == ms[k] by {
                    assert(b.struct_children@[d.children@[k].0 as int]
                        == a.struct_children@[d.children@[k].0 as int]);
                }
            }
        },
        _ => {},
    }
}

/// A recursive-descent parser over a slice of tokens, filling an arena.
pub struct Parser<'a> {
    tokens: &'a [Spanned],
    pos: usize,
    pub arena: Arena,
}

impl<'a> Parser<'a> {
    /// The tokens being read.
    pub closed spec fn toks(&self) -> Seq<Spanned> {
        self.tokens@
    }

    /// The cursor.
    pub closed spec fn at(&self) -> int {
        self.pos as int
    }

    /// The arena being filled.
    pub closed spec fn store(&self) -> Arena {
        self.arena
    }

    /// The shapes of the tokens being read.
    pub open spec fn shape(&self) -> Seq<(TokenKind, bool)> {
        shape_of(self.toks())
    }

    /// The kind of the next token that is not a newline.
    pub open spec fn next_kind(&self) -> Option<TokenKind> {
        kind_at(self.shape(), self.at())
    }

    /// The next token that is not a newline (meaningful when `next_kind` is some).
    pub open spec fn next_tok(&self) -> Token {
        self.toks()[sig(self.shape(), self.at())].token
    }

    /// The text of the first token at or after `q` that is not a newline, when it is an
    /// identifier.
    pub open spec fn text_at(&self, q: int) -> Seq<char> {
        self.toks()[sig(self.shape(), q)].token.spec_ident()
    }

    /// The text of the identifier read just after the first token from where `self`
    /// stands (the name after an opening bracket).
    pub open spec fn second_text(&self) -> Seq<char> {
        self.text_at(after(self.shape(), self.at()))
    }

    /// The type expression that the tokens spell from `q`.
    pub open spec fn type_from(&self, q: int) -> TypeView {
        (type_tree(self.toks(), q)->0).0
    }

    /// Where the type expression that the tokens spell from `q` ends.
    pub open spec fn type_end_from(&self, q: int) -> int {
        (type_tree(self.toks(), q)->0).1
    }

    /// The first token at or after `q` that is not a newline.
    pub open spec fn tok_at(&self, q: int) -> Token {
        self.toks()[sig(self.shape(), q)].token
    }

    /// The position after reading one token from where `self` stands.
    pub open spec fn pos1(&self) -> int {
        after(self.shape(), self.at())
    }

    /// The position after reading two tokens from where `self` stands.
    pub open spec fn pos2(&self) -> int {
        after(self.shape(), self.pos1())
    }

    /// The position after reading three tokens from where `self` stands.
    pub open spec fn pos3(&self) -> int {
        after(self.shape(), self.pos2())
    }

    /// `self` is reached from `prev` by reading on: the same tokens, the cursor not
    /// moved back, the arena only appended to, and a sound arena kept sound.
    pub open spec fn follows(&self, prev: Parser<'a>) -> bool {
        &&& self.toks() == prev.toks()
        &&& prev.at() <= self.at() <= self.toks().len()
        &&& self.store().extends(&prev.store())
        &&& (prev.store().sound() ==> self.store().sound())
    }

    /// Where the arena's indices fit in `u32`, the arena holds exactly `n` more nodes of
    /// each kind than at `prev`.
    pub open spec fn added(&self, prev: Parser<'a>, n: Sizes) -> bool {
        grew(prev.store(), self.store(), n)
    }

    /// Where the arena's indices fit in `u32`, the expression tree `v` is stored in the
    /// arena in reading order from the counts `z` on.
    pub open spec fn placed(&self, z: Sizes, v: ExprView) -> bool {
        self.store().indexable() ==> placed_expr(self.store(), z, v)
    }

    /// Where the arena's indices fit in `u32`, `e` is the last expression stored.
    pub open spec fn last_expr(&self, e: ExprRef) -> bool {
        self.store().indexable() ==> e.0 + 1 == self.store().sizes().exprs
    }

    /// Where the arena's indices fit in `u32`, `b` is the last block stored.
    pub open spec fn last_block(&self, b: BlockRef) -> bool {
        self.store().indexable() ==> b.0 + 1 == self.store().sizes().blocks
    }

    /// Where the arena's indices fit in `u32`, `m` is the last match stored.
    pub open spec fn last_match(&self, m: MatchRef) -> bool {
        self.store().indexable() ==> m.0 + 1 == self.store().sizes().matches
    }

    /// Where the arena's indices fit in `u32`, the node a statement refers to last (its
    /// expression, its value, or its body) is the last of its kind stored.
    pub open spec fn last_of_statement(&self, st: Statement) -> bool {
        match st {
            Statement::EarlyReturn(e) => self.last_expr(e),
            Statement::Expr(e) => self.last_expr(e),
            Statement::Instance { value, .. } => self.last_expr(value),
            Statement::Loop(b) => self.last_block(b),
            Statement::Iteration { body, .. } => self.last_block(body),
            _ => true,
        }
    }

    /// Where the arena's indices fit in `u32`, `a` is the last match arm stored.
    pub open spec fn last_arm(&self, a: MatchArmRef) -> bool {
        self.store().indexable() ==> a.0 + 1 == self.store().sizes().match_arms
    }

    /// `r` is an expression of the arena, wherever the arena's indices fit in `u32`.
    pub open spec fn has_expr(&self, r: ExprRef) -> bool {
        self.store().indexable() ==> r.0 < self.store().sizes().exprs
    }

    /// `r` is a block of the arena, wherever the arena's indices fit in `u32`.
    pub open spec fn has_block(&self, r: BlockRef) -> bool {
        self.store().indexable() ==> r.0 < self.store().sizes().blocks
    }

    /// `r` is a match of the arena, wherever the arena's indices fit in `u32`.
    pub open spec fn has_match(&self, r: MatchRef) -> bool {
        self.store().indexable() ==> r.0 < self.store().sizes().matches
    }

    /// Every expression of `v` is in the arena, wherever its indices fit in `u32`.
    pub open spec fn has_exprs(&self, v: Seq<ExprRef>) -> bool {
        self.store().indexable() ==> exprs_below(v, self.store().sizes().exprs)
    }

    /// Where the arena's indices fit in `u32`, the expression at `e` is the tree `v`.
    pub open spec fn holds_expr(&self, e: ExprRef, v: ExprView) -> bool {
        self.store().indexable() ==> expr_is(self.store(), e, v)
    }

    /// Where the arena's indices fit in `u32`, the expressions at `refs` are the trees `vs`.
    pub open spec fn holds_exprs(&self, refs: Seq<ExprRef>, vs: Seq<ExprView>) -> bool {
        self.store().indexable() ==> exprs_are(self.store(), refs, vs)
    }

    /// Where the arena's indices fit in `u32`, the field initializers at `refs` are `vs`.
    pub open spec fn holds_inits(&self, refs: Seq<FieldInitRef>, vs: Seq<(Seq<char>, ExprView)>) -> bool {
        self.store().indexable() ==> inits_are(self.store(), refs, vs)
    }

    /// Where the arena's indices fit in `u32`, the block at `b` is the tree `v`.
    pub open spec fn holds_block(&self, b: BlockRef, v: BlockView) -> bool {
        self.store().indexable() ==> block_is(self.store(), b, v)
    }

    /// Where the arena's indices fit in `u32`, the match at `m` is the tree `v`.
    pub open spec fn holds_match(&self, m: MatchRef, v: MatchView) -> bool {
        self.store().indexable() ==> match_is(self.store(), m, v)
    }

    /// Where the arena's indices fit in `u32`, the match arms at `refs` are the trees `vs`.
    pub open spec fn holds_arms(&self, refs: Seq<MatchArmRef>, vs: Seq<(Seq<PatternView>, ExprView)>) -> bool {
        self.store().indexable() ==> arms_are(self.store(), refs, vs)
    }

    /// Where the arena's indices fit in `u32`, the method body `b` is the tree `v`.
    pub open spec fn holds_body(&self, b: MethodBody, v: BodyView) -> bool {
        self.store().indexable() ==> body_is(self.store(), b, v)
    }

    /// Where the arena's indices fit in `u32`, the statement `st` is the tree `v`.
    pub open spec fn holds_statement(&self, st: Statement, v: StmtView) -> bool {
        self.store().indexable() ==> statement_is(self.store(), st, v)
    }

    /// A parser at the first of `tokens`, with an empty arena.
    pub fn new(tokens: &'a [Spanned]) -> (p: Parser<'a>)
        ensures
            p.toks() == tokens@,
            p.at() == 0,
            p.store().is_empty(),
            p.store().wf(),
    {
        Parser { tokens, pos: 0, arena: Arena::default() }
    }

    /// The index of the next token that is not a newline.
    fn sig_pos(&self) -> (q: usize)
        requires
            self.at() <= self.toks().len(),
        ensures
            q == next_sig(self.toks(), self.at()),
            q == sig(self.shape(), self.at()),
            self.at() <= q <= self.toks().len(),
    {
        proof {
            lemma_sig_shape(self.toks(), self.at());
            lemma_next_sig(self.toks(), self.at());
        }
        let mut i = self.pos;
        while i < self.tokens.len() && self.tokens[i].token.kind() == TokenKind::Newline
            invariant
                self.pos <= i <= self.tokens@.len(),
                next_sig(self.tokens@, i as int) == next_sig(self.tokens@, self.pos as int),
            decreases self.tokens@.len() - i,
        {
            i += 1;
        }
        i
    }

    /// The kind of the next token that is not a newline.
    fn peek_kind(&self) -> (r: Option<TokenKind>)
        requires
            self.at() <= self.toks().len(),
        ensures
            r == self.next_kind(),
    {
        let q = self.sig_pos();
        if q < self.tokens.len() {
            Some(self.tokens[q].token.kind())
        } else {
            None
        }
    }

    /// The next token that is not a newline.
    fn peek_tok(&self) -> (r: Option<&'a Token>)
        requires
            self.at() <= self.toks().len(),
        ensures
            match r {
                Some(t) => self.next_kind() is Some && *t == self.next_tok(),
                None => self.next_kind() is None,
            },
    {
        let q = self.sig_pos();
        let toks: &'a [Spanned] = self.tokens;
        if q < toks.len() {
            Some(&toks[q].token)
        } else {
            None
        }
    }

    /// The next token that is not a newline is of kind `k`.
    fn at_kind(&self, k: TokenKind) -> (r: bool)
        requires
            self.at() <= self.toks().len(),
        ensures
            r == (self.next_kind() == Some(k)),
    {
        match self.peek_kind() {
            Some(j) => j == k,
            None => false,
        }
    }

    /// The next token that is not a newline is the identifier `Self`.
    fn at_self(&self) -> (r: bool)
        requires
            self.at() <= self.toks().len(),
        ensures
            r == self_at(self.shape(), self.at()),
    {
        match self.peek_tok() {
            Some(t) => t.is_self(),
            None => false,
        }
    }

    /// Only newlines remain.
    fn at_end(&self) -> (r: bool)
        requires
            self.at() <= self.toks().len(),
        ensures
            r == (self.next_kind() is None),
    {
        self.sig_pos() >= self.tokens.len()
    }

    /// Moves past newlines.
    fn skip_newlines(&mut self)
        requires
            old(self).at() <= old(self).toks().len(),
        ensures
            final(self).toks() == old(self).toks(),
            final(self).store() == old(self).store(),
            final(self).at() == next_sig(old(self).toks(), old(self).at()),
            final(self).at() == sig(old(self).shape(), old(self).at()),
    {
        self.pos = self.sig_pos();
    }

    /// Reads the next token that is not a newline, if any.
    fn advance(&mut self) -> (r: Option<&'a Token>)
        requires
            old(self).at() <= old(self).toks().len(),
        ensures
            final(self).toks() == old(self).toks(),
            final(self).store() == old(self).store(),
            final(self).at() == after(old(self).shape(), old(self).at()),
            old(self).at() <= final(self).at() <= final(self).toks().len(),
            old(self).next_kind() is Some ==> final(self).at() > old(self).at(),
            match r {
                Some(t) => old(self).next_kind() is Some && *t == old(self).next_tok(),
                None => old(self).next_kind() is None,
            },
    {
        proof {
            lemma_next_sig(self.toks(), self.at());
        }
        self.skip_newlines();
        let toks: &'a [Spanned] = self.tokens;
        if self.pos < toks.len() {
            let t = &toks[self.pos].token;
            self.pos += 1;
            Some(t)
        } else {
            None
        }
    }

    /// The span of the next token that is not a newline; at the end, an empty span at 0.
    fn span_here(&self) -> (r: Span)
        requires
            self.at() <= self.toks().len(),
        ensures
            self.next_kind() is Some ==> r.start == self.toks()[next_sig(
                self.toks(),
                self.at(),
            )].span.start as u32 && r.end == self.toks()[next_sig(
                self.toks(),
                self.at(),
            )].span.end as u32,
            self.next_kind() is None ==> r.start == 0 && r.end == 0,
            r == span_at(self.toks(), self.at()),
    {
        proof {
            lemma_sig_shape(self.toks(), self.at());
        }
        let i = self.sig_pos();
        if i < self.tokens.len() {
            Span {
                start: self.tokens[i].span.start as u32,
                end: self.tokens[i].span.end as u32,
            }
        } else {
            Span { start: 0, end: 0 }
        }
    }

    /// Where the token last read ends; before any token, `start`.
    pub open spec fn last_end(&self, start: u32) -> u32 {
        if self.at() > 0 {
            self.toks()[self.at() - 1].span.end as u32
        } else {
            start
        }
    }

    /// The span from `start` to the end of the token last read.
    fn span_from(&self, start: u32) -> (r: Span)
        requires
            self.at() <= self.toks().len(),
        ensures
            r.start == start,
            r.end == self.last_end(start),
    {
        let mut end = start;
        if self.pos > 0 {
            end = self.tokens[self.pos - 1].span.end as u32;
        }
        Span { start, end }
    }

    /// Reads a token of kind `k`.
    fn expect(&mut self, k: TokenKind) -> (r: Result<(), String>)
        requires
            old(self).at() <= old(self).toks().len(),
        ensures
            final(self).toks() == old(self).toks(),
            final(self).store() == old(self).store(),
            final(self).at() == after(old(self).shape(), old(self).at()),
            old(self).at() <= final(self).at() <= final(self).toks().len(),
            r is Ok <==> old(self).next_kind() == Some(k),
            r is Ok ==> final(self).at() > old(self).at(),
    {
        let pos = self.pos;
        let got = self.advance();
        match got {
            Some(t) => {
                if t.kind() == k {
                    Ok(())
                } else {
                    Err(unexpected(variant_text(k), got, pos))
                }
            },
            None => Err(unexpected(variant_text(k), got, pos)),
        }
    }

    /// Reads a PascalCase identifier.
    fn expect_pascal(&mut self) -> (r: Result<Name, String>)
        requires
            old(self).at() <= old(self).toks().len(),
        ensures
            final(self).toks() == old(self).toks(),
            final(self).store() == old(self).store(),
            final(self).at() == after(old(self).shape(), old(self).at()),
            old(self).at() <= final(self).at() <= final(self).toks().len(),
            r is Ok <==> old(self).next_kind() == Some(TokenKind::PascalIdent),
            r is Ok ==> final(self).at() > old(self).at(),
            r matches Ok(n) ==> n.0@ == old(self).next_tok().spec_ident(),
    {
        let pos = self.pos;
        let got = self.advance();
        match got {
            Some(t) => {
                if t.kind() == TokenKind::PascalIdent {
                    Ok(name_of(t))
                } else {
                    Err(unexpected("PascalCase", got, pos))
                }
            },
            None => Err(unexpected("PascalCase", got, pos)),
        }
    }

    /// Reads a camelCase identifier.
    fn expect_camel(&mut self) -> (r: Result<Name, String>)
        requires
            old(self).at() <= old(self).toks().len(),
        ensures
            final(self).toks() == old(self).toks(),
            final(self).store() == old(self).store(),
            final(self).at() == after(old(self).shape(), old(self).at()),
            old(self).at() <= final(self).at() <= final(self).toks().len(),
            r is Ok <==> old(self).next_kind() == Some(TokenKind::CamelIdent),
            r is Ok ==> final(self).at() > old(self).at(),
            r matches Ok(n) ==> n.0@ == old(self).next_tok().spec_ident(),
    {
        let pos = self.pos;
        let got = self.advance();
        match got {
            Some(t) => {
                if t.kind() == TokenKind::CamelIdent {
                    Ok(name_of(t))
                } else {
                    Err(unexpected("camelCase", got, pos))
                }
            },
            None => Err(unexpected("camelCase", got, pos)),
        }
    }

    /// Reads an identifier of either case.
    fn expect_name(&mut self) -> (r: Result<Name, String>)
        requires
            old(self).at() <= old(self).toks().len(),
        ensures
            final(self).toks() == old(self).toks(),
            final(self).store() == old(self).store(),
            final(self).at() == after(old(self).shape(), old(self).at()),
            old(self).at() <= final(self).at() <= final(self).toks().len(),
            r is Ok <==> (old(self).next_kind() == Some(TokenKind::PascalIdent)
                || old(self).next_kind() == Some(TokenKind::CamelIdent)),
            r is Ok ==> final(self).at() > old(self).at(),
            r matches Ok(n) ==> n.0@ == old(self).next_tok().spec_ident(),
    {
        let pos = self.pos;
        let got = self.advance();
        match got {
            Some(t) => {
                if t.kind() == TokenKind::PascalIdent || t.kind() == TokenKind::CamelIdent {
                    Ok(name_of(t))
                } else {
                    Err(unexpected("name", got, pos))
                }
            },
            None => Err(unexpected("name", got, pos)),
        }
    }
    /// Reads a type expression: `[Ctor Arg..]`, `$Param`, `$A&B..` or a plain name.
    /// Which form is read is decided by the next token; the arena is not touched.
    #[verifier::spinoff_prover]
    #[verifier::rlimit(80)]
    fn parse_type_expr(&mut self) -> (r: Result<TypeExpr, String>)
        requires
            old(self).at() <= old(self).toks().len(),
        ensures
            final(self).toks() == old(self).toks(),
            final(self).store() == old(self).store(),
            old(self).at() <= final(self).at() <= final(self).toks().len(),
            r is Ok ==> final(self).at() > old(self).at(),
            !(old(self).next_kind() == Some(TokenKind::LBracket) || old(self).next_kind() == Some(
                TokenKind::Dollar,
            ) || old(self).next_kind() == Some(TokenKind::PascalIdent)) ==> r is Err,
            r matches Ok(TypeExpr::Application { .. }) ==> old(self).next_kind() == Some(
                TokenKind::LBracket,
            ),
            r matches Ok(TypeExpr::Param(_)) ==> old(self).next_kind() == Some(TokenKind::Dollar),
            r matches Ok(TypeExpr::BoundedParam { bounds }) ==> old(self).next_kind() == Some(
                TokenKind::Dollar,
            ) && bounds@.len() >= 2,
            r matches Ok(TypeExpr::Simple(n)) ==> old(self).next_kind() == Some(
                TokenKind::PascalIdent,
            ) && n.0@ == old(self).next_tok().spec_ident(),
            !(r matches Ok(TypeExpr::InstanceRef { .. })),
            agrees(r is Ok, type_end(old(self).shape(), old(self).at()), final(self).at()),
            r matches Ok(TypeExpr::Application { constructor, .. }) ==> constructor.0@ == old(
                self,
            ).second_text(),
            r matches Ok(TypeExpr::Param(n)) ==> n.0@ == old(self).second_text(),
            r matches Ok(TypeExpr::BoundedParam { bounds }) ==> bounds@[0].0@ == old(
                self,
            ).second_text(),
            r matches Ok(te) ==> type_tree(old(self).toks(), old(self).at()) == Some(
                (te.view_type(), final(self).at()),
            ),
        decreases old(self).toks().len() - old(self).at(),
    {
        match self.peek_kind() {
            Some(TokenKind::LBracket) => {
                self.expect(TokenKind::LBracket)?;
                let constructor = self.expect_pascal()?;
                let mut args: Vec<TypeExpr> = Vec::new();
                proof {
                    match type_args_tree(self.toks(), self.at()) {
                        Some((rest, e)) => {
                            assert(TypeExpr::view_all(args@) + rest =~= rest);
                        },
                        None => {},
                    }
                }
                while !self.at_kind(TokenKind::RBracket)
                    invariant
                        self.toks() == old(self).toks(),
                        self.store() == old(self).store(),
                        old(self).at() < self.at() <= self.toks().len(),
                        type_end(old(self).shape(), old(self).at()) == match type_args_end(
                            self.shape(),
                            self.at(),
                        ) {
                            Some(e) => tok(self.shape(), e, TokenKind::RBracket),
                            None => None,
                        },
                        constructor.0@ == old(self).second_text(),
                        type_tree(old(self).toks(), old(self).at()) == match type_args_tree(
                            self.toks(),
                            self.at(),
                        ) {
                            Some((rest, e)) => match tok(self.shape(), e, TokenKind::RBracket) {
                                Some(e2) => Some(
                                    (
                                        TypeView::Application(
                                            constructor.0@,
                                            TypeExpr::view_all(args@) + rest,
                                        ),
                                        e2,
                                    ),
                                ),
                                None => None,
                            },
                            None => None,
                        },
                    decreases self.toks().len() - self.at(),
                {
                    if self.at_end() {
                        return Err(String::from_str("unexpected EOF in type app"));
                    }
                    let before = self.pos;
                    let ghost old_args = args@;
                    let arg = self.parse_type_expr()?;
                    let ghost va = arg.view_type();
                    args.push(arg);
                    proof {
                        assert(args@.drop_last() =~= old_args);
                        assert(TypeExpr::view_all(args@) == TypeExpr::view_all(old_args).push(va));
                        match type_args_tree(self.toks(), self.at()) {
                            Some((rest, e)) => {
                                assert(TypeExpr::view_all(old_args) + (seq![va] + rest)
                                    =~= TypeExpr::view_all(args@) + rest);
                            },
                            None => {},
                        }
                    }
                    if self.pos <= before {
                        return Err(String::from_str("stuck in type app"));
                    }
                }
                self.expect(TokenKind::RBracket)?;
                Ok(TypeExpr::Application { constructor, args })
            },
            Some(TokenKind::Dollar) => {
                self.advance();
                let first = self.expect_pascal()?;
                let mut bounds: Vec<Name> = Vec::new();
                bounds.push(first);
                proof {
                    assert(name_texts(bounds@) =~= seq![bounds@[0].0@]);
                }
                while self.at_kind(TokenKind::Ampersand)
                    invariant
                        self.toks() == old(self).toks(),
                        self.store() == old(self).store(),
                        old(self).at() < self.at() <= self.toks().len(),
                        bounds@.len() >= 1,
                        bounds@[0].0@ == old(self).second_text(),
                        type_end(old(self).shape(), old(self).at()) == bounds_end(
                            self.shape(),
                            self.at(),
                        ),
                        type_tree(old(self).toks(), old(self).at()) == match bound_names(
                            self.toks(),
                            self.at(),
                        ) {
                            Some((bs, e)) => Some((param_view(name_texts(bounds@) + bs), e)),
                            None => None,
                        },
                    decreases self.toks().len() - self.at(),
                {
                    self.advance();
                    let ghost old_bounds = bounds@;
                    let b = self.expect_pascal()?;
                    let ghost bt = b.0@;
                    bounds.push(b);
                    proof {
                        assert(name_texts(bounds@) =~= name_texts(old_bounds).push(bt));
                        match bound_names(self.toks(), self.at()) {
                            Some((bs, e)) => {
                                assert(name_texts(old_bounds) + (seq![bt] + bs) =~= name_texts(
                                    bounds@,
                                ) + bs);
                            },
                            None => {},
                        }
                    }
                }
                proof {
                    assert(name_texts(bounds@) + Seq::<Seq<char>>::empty() =~= name_texts(bounds@));
                }
                if bounds.len() == 1 {
                    Ok(TypeExpr::Param(bounds.remove(0)))
                } else {
                    Ok(TypeExpr::BoundedParam { bounds })
                }
            },
            Some(TokenKind::PascalIdent) => {
                let name = self.expect_pascal()?;
                Ok(TypeExpr::Simple(name))
            },
            _ => Err(unexpected_found("type", self.peek_tok())),
        }
    }

    /// Reads the module declaration `(Name Export.. [Source Name..]..)`.
    #[verifier::spinoff_prover]
    #[verifier::rlimit(80)]
    fn parse_module_decl(&mut self) -> (r: Result<ModuleDef, String>)
        requires
            old(self).at() <= old(self).toks().len(),
        ensures
            final(self).toks() == old(self).toks(),
            final(self).store() == old(self).store(),
            old(self).at() <= final(self).at() <= final(self).toks().len(),
            r is Ok ==> final(self).at() > old(self).at(),
            r is Ok ==> old(self).next_kind() == Some(TokenKind::LParen),
            agrees(r is Ok, module_end(old(self).shape(), old(self).at()), final(self).at()),
            r matches Ok(m) ==> m.name.0@ == old(self).second_text(),
            r matches Ok(m) ==> name_texts(m.exports@) == module_items_tree(
                old(self).toks(),
                old(self).pos2(),
            ).0 && import_views(m.imports@) == module_items_tree(
                old(self).toks(),
                old(self).pos2(),
            ).1,
            r matches Ok(m) ==> m.span == span_through(old(self).toks(), old(self).at(), final(self).at()),
    {
        let start = self.span_here().start;
        self.expect(TokenKind::LParen)?;
        let name = self.expect_pascal()?;
        let mut exports: Vec<Name> = Vec::new();
        let mut imports: Vec<ModuleImport> = Vec::new();
        proof {
            assert(name_texts(exports@) + module_items_tree(self.toks(), self.at()).0
                =~= module_items_tree(self.toks(), self.at()).0);
            assert(import_views(imports@) + module_items_tree(self.toks(), self.at()).1
                =~= module_items_tree(self.toks(), self.at()).1);
        }
        while !self.at_kind(TokenKind::RParen)
            invariant
                self.toks() == old(self).toks(),
                self.store() == old(self).store(),
                old(self).at() < self.at() <= self.toks().len(),
                module_end(old(self).shape(), old(self).at()) == match module_items_end(
                    self.shape(),
                    self.at(),
                ) {
                    Some(e) => tok(self.shape(), e, TokenKind::RParen),
                    None => None,
                },
                module_items_tree(old(self).toks(), old(self).pos2()).0 == name_texts(exports@)
                    + module_items_tree(self.toks(), self.at()).0,
                module_items_tree(old(self).toks(), old(self).pos2()).1 == import_views(imports@)
                    + module_items_tree(self.toks(), self.at()).1,
            decreases self.toks().len() - self.at(),
        {
            if self.at_end() {
                return Err(String::from_str("unexpected EOF in module"));
            }
            let ghost mark = self.at();
            if self.at_kind(TokenKind::LBracket) {
                self.expect(TokenKind::LBracket)?;
                let source = self.expect_pascal()?;
                let mut names: Vec<Name> = Vec::new();
                let ghost q1 = self.at();
                proof {
                    assert(name_texts(names@) + names_from(self.toks(), self.at()) =~= names_from(
                        self.toks(),
                        self.at(),
                    ));
                }
                while !self.at_kind(TokenKind::RBracket)
                    invariant
                        self.toks() == old(self).toks(),
                        self.store() == old(self).store(),
                        old(self).at() < self.at() <= self.toks().len(),
                        mark < self.at(),
                        0 <= mark <= self.toks().len(),
                        module_end(old(self).shape(), old(self).at()) == match module_items_end(
                            self.shape(),
                            mark,
                        ) {
                            Some(e) => tok(self.shape(), e, TokenKind::RParen),
                            None => None,
                        },
                        module_items_end(self.shape(), mark) == match names_end(
                            self.shape(),
                            self.at(),
                        ) {
                            Some(q2) => match tok(self.shape(), q2, TokenKind::RBracket) {
                                Some(e) => if mark < e <= self.shape().len() {
                                    module_items_end(self.shape(), e)
                                } else {
                                    None
                                },
                                None => None,
                            },
                            None => None,
                        },
                        names_end(self.shape(), q1) == names_end(self.shape(), self.at()),
                        names_from(self.toks(), q1) == name_texts(names@) + names_from(
                            self.toks(),
                            self.at(),
                        ),
                        source.0@ == self.text_at(after(self.shape(), mark)),
                        kind_at(self.shape(), mark) == Some(TokenKind::LBracket),
                        tok(self.shape(), after(self.shape(), mark), TokenKind::PascalIdent) == Some(
                            q1,
                        ),
                        mark < q1,
                        module_items_tree(old(self).toks(), old(self).pos2()).0 == name_texts(
                            exports@,
                        ) + module_items_tree(self.toks(), mark).0,
                        module_items_tree(old(self).toks(), old(self).pos2()).1 == import_views(
                            imports@,
                        ) + module_items_tree(self.toks(), mark).1,
                    decreases self.toks().len() - self.at(),
                {
                    let ghost at0 = self.at();
                    let ghost old_names = names@;
                    let n = self.expect_name()?;
                    let ghost nt = n.0@;
                    names.push(n);
                    proof {
                        assert(names_from(self.toks(), at0) == seq![nt] + names_from(
                            self.toks(),
                            self.at(),
                        ));
                        assert(name_texts(names@) =~= name_texts(old_names).push(nt));
                        assert(name_texts(old_names) + (seq![nt] + names_from(
                            self.toks(),
                            self.at(),
                        )) =~= name_texts(names@) + names_from(self.toks(), self.at()));
                    }
                }
                self.expect(TokenKind::RBracket)?;
                let ghost old_imports = imports@;
                let imp = ModuleImport { source, names };
                let ghost iv = imp.import_view();
                imports.push(imp);
                proof {
                    assert(names_from(self.toks(), q1) =~= iv.1);
                    let rest = module_items_tree(self.toks(), self.at());
                    assert(module_items_tree(self.toks(), mark) == (rest.0, seq![iv] + rest.1));
                    assert(import_views(imports@) =~= import_views(old_imports).push(iv));
                    assert(import_views(old_imports) + (seq![iv] + rest.1) =~= import_views(
                        imports@,
                    ) + rest.1);
                }
            } else {
                let ghost old_exports = exports@;
                let n = self.expect_name()?;
                let ghost nt = n.0@;
                exports.push(n);
                proof {
                    let rest = module_items_tree(self.toks(), self.at());
                    assert(module_items_tree(self.toks(), mark) == (seq![nt] + rest.0, rest.1));
                    assert(name_texts(exports@) =~= name_texts(old_exports).push(nt));
                    assert(name_texts(old_exports) + (seq![nt] + rest.0) =~= name_texts(exports@)
                        + rest.0);
                }
            }
        }
        self.expect(TokenKind::RParen)?;
        Ok(ModuleDef { name, exports, imports, span: self.span_from(start) })
    }

    /// Reads a match pattern: `Variant`, `Variant@Binding` or a string literal.
    fn parse_pattern(&mut self) -> (r: Result<Pattern, String>)
        requires
            old(self).at() <= old(self).toks().len(),
        ensures
            final(self).toks() == old(self).toks(),
            final(self).store() == old(self).store(),
            old(self).at() <= final(self).at() <= final(self).toks().len(),
            r is Ok ==> final(self).at() > old(self).at(),
            !(old(self).next_kind() == Some(TokenKind::PascalIdent) || old(self).next_kind()
                == Some(TokenKind::StringLit)) ==> r is Err,
            r matches Ok(Pattern::Variant(n)) ==> old(self).next_kind() == Some(
                TokenKind::PascalIdent,
            ) && n.0@ == old(self).next_tok().spec_ident(),
            r matches Ok(Pattern::VariantBind { variant, .. }) ==> old(self).next_kind() == Some(
                TokenKind::PascalIdent,
            ) && variant.0@ == old(self).next_tok().spec_ident(),
            r matches Ok(Pattern::StringLit(v)) ==> old(self).next_kind() == Some(
                TokenKind::StringLit,
            ) && v@ == old(self).next_tok().spec_text(),
            !(r matches Ok(Pattern::OrPattern(_))),
            agrees(r is Ok, pattern_end(old(self).shape(), old(self).at()), final(self).at()),
            r matches Ok(Pattern::VariantBind { binding, .. }) ==> binding.0@ == old(self).text_at(
                old(self).pos2(),
            ),
            r matches Ok(pt) ==> pt.view_pattern() == pattern_tree(old(self).toks(), old(self).at()),
    {
        match self.peek_tok() {
            Some(Token::PascalIdent(_)) => {
                let n = self.expect_pascal()?;
                if self.at_kind(TokenKind::At) {
                    self.advance();
                    let b = self.expect_pascal()?;
                    Ok(Pattern::VariantBind { variant: n, binding: b })
                } else {
                    Ok(Pattern::Variant(n))
                }
            },
            Some(Token::StringLit(v)) => {
                let text = v.clone();
                self.advance();
                Ok(Pattern::StringLit(text))
            },
            other => Err(unexpected_found("pattern", other)),
        }
    }

    /// Reads a parameter: `:@Self`, `~@Self`, `@Self`, `:@Name Type`, `~@Name Type`,
    /// `@Name Type` or a bare `@Name`.
    #[verifier::spinoff_prover]
    #[verifier::rlimit(80)]
    fn parse_param(&mut self) -> (r: Result<Param, String>)
        requires
            old(self).at() <= old(self).toks().len(),
        ensures
            final(self).toks() == old(self).toks(),
            final(self).store() == old(self).store(),
            old(self).at() <= final(self).at() <= final(self).toks().len(),
            r is Ok ==> final(self).at() > old(self).at(),
            !(old(self).next_kind() == Some(TokenKind::Colon) || old(self).next_kind() == Some(
                TokenKind::Tilde,
            ) || old(self).next_kind() == Some(TokenKind::At)) ==> r is Err,
            r matches Ok(Param::BorrowSelf) ==> old(self).next_kind() == Some(TokenKind::Colon),
            r matches Ok(Param::MutBorrowSelf) ==> old(self).next_kind() == Some(TokenKind::Tilde),
            r matches Ok(Param::OwnedSelf) ==> old(self).next_kind() == Some(TokenKind::At),
            r matches Ok(Param::Bare { .. }) ==> old(self).next_kind() == Some(TokenKind::At),
            agrees(r is Ok, param_end(old(self).shape(), old(self).at()), final(self).at()),
            r matches Ok(Param::BorrowSelf) <==> r is Ok && old(self).next_kind() == Some(
                TokenKind::Colon,
            ) && self_at(old(self).shape(), old(self).pos2()),
            r matches Ok(Param::MutBorrowSelf) <==> r is Ok && old(self).next_kind() == Some(
                TokenKind::Tilde,
            ) && self_at(old(self).shape(), old(self).pos2()),
            r matches Ok(Param::OwnedSelf) <==> r is Ok && old(self).next_kind() == Some(
                TokenKind::At,
            ) && self_at(old(self).shape(), old(self).pos1()),
            r matches Ok(Param::Named { name, typ }) ==> if old(self).next_kind() == Some(
                TokenKind::At,
            ) {
                name.0@ == old(self).second_text() && typ.view_type() == old(self).type_from(
                    old(self).pos2(),
                )
            } else {
                name.0@ == old(self).text_at(old(self).pos2()) && typ.view_type() == old(
                    self,
                ).type_from(old(self).pos3())
            },
            r matches Ok(Param::Bare { name }) ==> name.0@ == old(self).second_text(),
            r matches Ok(pm) ==> pm.view_param() == param_tree(old(self).toks(), old(self).at()),
    {
        match self.peek_kind() {
            Some(TokenKind::Colon) => {
                self.advance();
                self.expect(TokenKind::At)?;
                if self.at_self() {
                    self.advance();
                    Ok(Param::BorrowSelf)
                } else {
                    let n = self.expect_pascal()?;
                    let t = self.parse_type_expr()?;
                    Ok(Param::Named { name: n, typ: t })
                }
            },
            Some(TokenKind::Tilde) => {
                self.advance();
                self.expect(TokenKind::At)?;
                if self.at_self() {
                    self.advance();
                    Ok(Param::MutBorrowSelf)
                } else {
                    let n = self.expect_pascal()?;
                    let t = self.parse_type_expr()?;
                    Ok(Param::Named { name: n, typ: t })
                }
            },
            Some(TokenKind::At) => {
                self.advance();
                if self.at_self() {
                    self.advance();
                    Ok(Param::OwnedSelf)
                } else {
                    let n = self.expect_pascal()?;
                    if self.at_kind(TokenKind::PascalIdent) || self.at_kind(TokenKind::LBracket)
                        || self.at_kind(TokenKind::Dollar) {
                        let t = self.parse_type_expr()?;
                        Ok(Param::Named { name: n, typ: t })
                    } else {
                        Ok(Param::Bare { name: n })
                    }
                }
            },
            _ => Err(unexpected_found("param", self.peek_tok())),
        }
    }

    /// Reads an expression.
    #[verifier::spinoff_prover]
    fn parse_expr(&mut self) -> (r: Result<ExprRef, String>)
        requires
            old(self).at() <= old(self).toks().len(),
        ensures
            final(self).follows(*old(self)),
            r is Ok ==> final(self).at() > old(self).at(),
            r matches Ok(e) ==> final(self).has_expr(e),
            agrees(r is Ok, expr_end(old(self).shape(), old(self).at()), final(self).at()),
            r matches Ok(e) ==> final(self).holds_expr(e, expr_tree(old(self).toks(), old(self).at())),
            r matches Ok(e) ==> final(self).added(*old(self), expr_count(expr_tree(old(self).toks(), old(self).at()))),
            r matches Ok(e) ==> final(self).placed(old(self).store().sizes(), expr_tree(old(self).toks(), old(self).at())),
            r matches Ok(e) ==> final(self).last_expr(e),
        decreases old(self).toks().len() - old(self).at(), 9nat,
    {
        reveal(expr_end);
        reveal(or_end);
        reveal(expr_tree);
        self.parse_expr_or()
    }

    /// Reads operands joined by `||`, grouping to the left.
    #[verifier::spinoff_prover]
    #[verifier::rlimit(80)]
    fn parse_expr_or(&mut self) -> (r: Result<ExprRef, String>)
        requires
            old(self).at() <= old(self).toks().len(),
        ensures
            final(self).follows(*old(self)),
            r is Ok ==> final(self).at() > old(self).at(),
            r matches Ok(e) ==> final(self).has_expr(e),
            agrees(r is Ok, or_end(old(self).shape(), old(self).at()), final(self).at()),
            r matches Ok(e) ==> final(self).holds_expr(e, or_tree(old(self).toks(), old(self).at())),
            r matches Ok(e) ==> final(self).added(*old(self), expr_count(or_tree(old(self).toks(), old(self).at()))),
            r matches Ok(e) ==> final(self).placed(old(self).store().sizes(), or_tree(old(self).toks(), old(self).at())),
            r matches Ok(e) ==> final(self).last_expr(e),
        decreases old(self).toks().len() - old(self).at(), 8nat,
    {
        reveal(or_end);
        reveal(or_rest_end);
        reveal(and_end);
        reveal(or_tree);
        reveal(or_rest_tree);
        let mut l = self.parse_expr_and()?;
        let ghost mut vl: ExprView = and_tree(self.toks(), old(self).at());
        while self.at_kind(TokenKind::LogicalOr)
            invariant
                self.follows(*old(self)),
                self.at() > old(self).at(),
                self.has_expr(l),
                or_end(old(self).shape(), old(self).at()) == or_rest_end(self.shape(), self.at()),
                self.holds_expr(l, vl),
                grew(old(self).store(), self.store(), expr_count(vl)),
                self.last_expr(l),
                self.placed(old(self).store().sizes(), vl),
                or_tree(self.toks(), old(self).at()) == or_rest_tree(self.toks(), self.at(), vl),
            decreases self.toks().len() - self.at(),
        {
            reveal(or_end);
            reveal(or_rest_end);
            reveal(and_end);
            reveal(or_rest_tree);
            let ghost a0 = self.store();
            let s = self.span_here();
            self.advance();
            let ghost q1 = self.at();
            let r = self.parse_expr_and()?;
            let ghost a1 = self.store();
            let n = self.arena.alloc_expr(Expr::BinOr { left: l, right: r, span: s });
            proof {
                let vr = and_tree(self.toks(), q1);
                lemma_grew3(old(self).store(), a0, a1, self.store(), expr_count(vl), expr_count(vr), one_expr());
                keep_expr(a0, self.store(), l, vl);
                keep_expr(a1, self.store(), r, vr);
                lemma_place_binary(old(self).store().sizes(), a0, a1, self.store(), l, r, vl, vr, TokenKind::LogicalOr, s);
                vl = ExprView::Binary(TokenKind::LogicalOr, Box::new(vl), Box::new(vr), s);
                assert(self.holds_expr(n, vl)) by {
                    reveal(expr_is);
                }
            }
            l = n;
        }
        Ok(l)
    }

    /// Reads operands joined by `&&`, grouping to the left.
    #[verifier::spinoff_prover]
    #[verifier::rlimit(80)]
    fn parse_expr_and(&mut self) -> (r: Result<ExprRef, String>)
        requires
            old(self).at() <= old(self).toks().len(),
        ensures
            final(self).follows(*old(self)),
            r is Ok ==> final(self).at() > old(self).at(),
            r matches Ok(e) ==> final(self).has_expr(e),
            agrees(r is Ok, and_end(old(self).shape(), old(self).at()), final(self).at()),
            r matches Ok(e) ==> final(self).holds_expr(e, and_tree(old(self).toks(), old(self).at())),
            r matches Ok(e) ==> final(self).added(*old(self), expr_count(and_tree(old(self).toks(), old(self).at()))),
            r matches Ok(e) ==> final(self).placed(old(self).store().sizes(), and_tree(old(self).toks(), old(self).at())),
            r matches Ok(e) ==> final(self).last_expr(e),
        decreases old(self).toks().len() - old(self).at(), 7nat,
    {
        reveal(and_end);
        reveal(and_rest_end);
        reveal(compare_end);
        reveal(and_tree);
        reveal(and_rest_tree);
        let mut l = self.parse_expr_compare()?;
        let ghost mut vl: ExprView = compare_tree(self.toks(), old(self).at());
        while self.at_kind(TokenKind::LogicalAnd)
            invariant
                self.follows(*old(self)),
                self.at() > old(self).at(),
                self.has_expr(l),
                and_end(old(self).shape(), old(self).at()) == and_rest_end(self.shape(), self.at()),
                self.holds_expr(l, vl),
                grew(old(self).store(), self.store(), expr_count(vl)),
                self.last_expr(l),
                self.placed(old(self).store().sizes(), vl),
                and_tree(self.toks(), old(self).at()) == and_rest_tree(self.toks(), self.at(), vl),
            decreases self.toks().len() - self.at(),
        {
            reveal(and_end);
            reveal(and_rest_end);
            reveal(compare_end);
            reveal(and_rest_tree);
            let ghost a0 = self.store();
            let s = self.span_here();
            self.advance();
            let ghost q1 = self.at();
            let r = self.parse_expr_compare()?;
            let ghost a1 = self.store();
            let n = self.arena.alloc_expr(Expr::BinAnd { left: l, right: r, span: s });
            proof {
                let vr = compare_tree(self.toks(), q1);
                lemma_grew3(old(self).store(), a0, a1, self.store(), expr_count(vl), expr_count(vr), one_expr());
                keep_expr(a0, self.store(), l, vl);
                keep_expr(a1, self.store(), r, vr);
                lemma_place_binary(old(self).store().sizes(), a0, a1, self.store(), l, r, vl, vr, TokenKind::LogicalAnd, s);
                vl = ExprView::Binary(TokenKind::LogicalAnd, Box::new(vl), Box::new(vr), s);
                assert(self.holds_expr(n, vl)) by {
                    reveal(expr_is);
                }
            }
            l = n;
        }
        Ok(l)
    }

    /// Reads an operand, then at most one comparison with a second operand.
    #[verifier::spinoff_prover]
    #[verifier::rlimit(80)]
    fn parse_expr_compare(&mut self) -> (r: Result<ExprRef, String>)
        requires
            old(self).at() <= old(self).toks().len(),
        ensures
            final(self).follows(*old(self)),
            r is Ok ==> final(self).at() > old(self).at(),
            r matches Ok(e) ==> final(self).has_expr(e),
            agrees(r is Ok, compare_end(old(self).shape(), old(self).at()), final(self).at()),
            r matches Ok(e) ==> final(self).holds_expr(e, compare_tree(old(self).toks(), old(self).at())),
            r matches Ok(e) ==> final(self).added(*old(self), expr_count(compare_tree(old(self).toks(), old(self).at()))),
            r matches Ok(e) ==> final(self).placed(old(self).store().sizes(), compare_tree(old(self).toks(), old(self).at())),
            r matches Ok(e) ==> final(self).last_expr(e),
        decreases old(self).toks().len() - old(self).at(), 6nat,
    {
        reveal(compare_end);
        reveal(add_end);
        reveal(compare_tree);
        let l = self.parse_expr_add()?;
        let s = self.span_here();
        match self.peek_kind() {
            Some(k) => {
                if is_comparison_kind(k) {
                    let ghost a0 = self.store();
                    self.advance();
                    let ghost q1 = self.at();
                    let r = self.parse_expr_add()?;
                    let ghost a1 = self.store();
                    let n = self.arena.alloc_expr(comparison(k, l, r, s));
                    proof {
                        lemma_grew3(old(self).store(), a0, a1, self.store(), expr_count(add_tree(self.toks(), old(self).at())), expr_count(add_tree(self.toks(), q1)), one_expr());
                        lemma_place_binary(old(self).store().sizes(), a0, a1, self.store(), l, r, add_tree(self.toks(), old(self).at()), add_tree(self.toks(), q1), k, s);
                        keep_expr(a0, self.store(), l, add_tree(self.toks(), old(self).at()));
                        keep_expr(a1, self.store(), r, add_tree(self.toks(), q1));
                        assert(self.holds_expr(
                            n,
                            ExprView::Binary(
                                k,
                                Box::new(add_tree(self.toks(), old(self).at())),
                                Box::new(add_tree(self.toks(), q1)),
                                s,
                            ),
                        )) by {
                            reveal(expr_is);
                        }
                    }
                    Ok(n)
                } else {
                    Ok(l)
                }
            },
            None => Ok(l),
        }
    }

    /// Reads operands joined by `+` and `-`, grouping to the left.
    #[verifier::spinoff_prover]
    #[verifier::rlimit(80)]
    fn parse_expr_add(&mut self) -> (r: Result<ExprRef, String>)
        requires
            old(self).at() <= old(self).toks().len(),
        ensures
            final(self).follows(*old(self)),
            r is Ok ==> final(self).at() > old(self).at(),
            r matches Ok(e) ==> final(self).has_expr(e),
            agrees(r is Ok, add_end(old(self).shape(), old(self).at()), final(self).at()),
            r matches Ok(e) ==> final(self).holds_expr(e, add_tree(old(self).toks(), old(self).at())),
            r matches Ok(e) ==> final(self).added(*old(self), expr_count(add_tree(old(self).toks(), old(self).at()))),
            r matches Ok(e) ==> final(self).placed(old(self).store().sizes(), add_tree(old(self).toks(), old(self).at())),
            r matches Ok(e) ==> final(self).last_expr(e),
        decreases old(self).toks().len() - old(self).at(), 5nat,
    {
        reveal(add_end);
        reveal(add_rest_end);
        reveal(mul_end);
        reveal(add_tree);
        reveal(add_rest_tree);
        let mut l = self.parse_expr_mul()?;
        let ghost mut vl: ExprView = mul_tree(self.toks(), old(self).at());
        loop
            invariant
                self.follows(*old(self)),
                self.at() > old(self).at(),
                self.has_expr(l),
                add_end(old(self).shape(), old(self).at()) == add_rest_end(self.shape(), self.at()),
                self.holds_expr(l, vl),
                grew(old(self).store(), self.store(), expr_count(vl)),
                self.last_expr(l),
                self.placed(old(self).store().sizes(), vl),
                add_tree(self.toks(), old(self).at()) == add_rest_tree(self.toks(), self.at(), vl),
            ensures
                self.next_kind() != Some(TokenKind::Plus),
                self.next_kind() != Some(TokenKind::Minus),
            decreases self.toks().len() - self.at(),
        {
            reveal(add_end);
            reveal(add_rest_end);
            reveal(mul_end);
            reveal(add_rest_tree);
            let s = self.span_here();
            match self.peek_kind() {
                Some(TokenKind::Plus) => {
                    let ghost a0 = self.store();
                    self.advance();
                    let ghost q1 = self.at();
                    let r = self.parse_expr_mul()?;
                    let ghost a1 = self.store();
                    let n = self.arena.alloc_expr(Expr::BinAdd { left: l, right: r, span: s });
                    proof {
                        let vr = mul_tree(self.toks(), q1);
                        lemma_grew3(old(self).store(), a0, a1, self.store(), expr_count(vl), expr_count(vr), one_expr());
                        keep_expr(a0, self.store(), l, vl);
                        keep_expr(a1, self.store(), r, vr);
                        lemma_place_binary(old(self).store().sizes(), a0, a1, self.store(), l, r, vl, vr, TokenKind::Plus, s);
                        vl = ExprView::Binary(TokenKind::Plus, Box::new(vl), Box::new(vr), s);
                        assert(self.holds_expr(n, vl)) by {
                            reveal(expr_is);
                        }
                    }
                    l = n;
                },
                Some(TokenKind::Minus) => {
                    let ghost a0 = self.store();
                    self.advance();
                    let ghost q1 = self.at();
                    let r = self.parse_expr_mul()?;
                    let ghost a1 = self.store();
                    let n = self.arena.alloc_expr(Expr::BinSub { left: l, right: r, span: s });
                    proof {
                        let vr = mul_tree(self.toks(), q1);
                        lemma_grew3(old(self).store(), a0, a1, self.store(), expr_count(vl), expr_count(vr), one_expr());
                        keep_expr(a0, self.store(), l, vl);
                        keep_expr(a1, self.store(), r, vr);
                        lemma_place_binary(old(self).store().sizes(), a0, a1, self.store(), l, r, vl, vr, TokenKind::Minus, s);
                        vl = ExprView::Binary(TokenKind::Minus, Box::new(vl), Box::new(vr), s);
                        assert(self.holds_expr(n, vl)) by {
                            reveal(expr_is);
                        }
                    }
                    l = n;
                },
                _ => {
                    break;
                },
            }
        }
        Ok(l)
    }

    /// Reads operands joined by `*` and `%`, grouping to the left.
    #[verifier::spinoff_prover]
    #[verifier::rlimit(80)]
    fn parse_expr_mul(&mut self) -> (r: Result<ExprRef, String>)
        requires
            old(self).at() <= old(self).toks().len(),
        ensures
            final(self).follows(*old(self)),
            r is Ok ==> final(self).at() > old(self).at(),
            r matches Ok(e) ==> final(self).has_expr(e),
            agrees(r is Ok, mul_end(old(self).shape(), old(self).at()), final(self).at()),
            r matches Ok(e) ==> final(self).holds_expr(e, mul_tree(old(self).toks(), old(self).at())),
            r matches Ok(e) ==> final(self).added(*old(self), expr_count(mul_tree(old(self).toks(), old(self).at()))),
            r matches Ok(e) ==> final(self).placed(old(self).store().sizes(), mul_tree(old(self).toks(), old(self).at())),
            r matches Ok(e) ==> final(self).last_expr(e),
        decreases old(self).toks().len() - old(self).at(), 4nat,
    {
        reveal(mul_end);
        reveal(mul_rest_end);
        reveal(postfix_end);
        reveal(mul_tree);
        reveal(mul_rest_tree);
        let mut l = self.parse_expr_postfix()?;
        let ghost mut vl: ExprView = postfix_tree(self.toks(), old(self).at());
        loop
            invariant
                self.follows(*old(self)),
                self.at() > old(self).at(),
                self.has_expr(l),
                mul_end(old(self).shape(), old(self).at()) == mul_rest_end(self.shape(), self.at()),
                self.holds_expr(l, vl),
                grew(old(self).store(), self.store(), expr_count(vl)),
                self.last_expr(l),
                self.placed(old(self).store().sizes(), vl),
                mul_tree(self.toks(), old(self).at()) == mul_rest_tree(self.toks(), self.at(), vl),
            ensures
                self.next_kind() != Some(TokenKind::Star),
                self.next_kind() != Some(TokenKind::Percent),
            decreases self.toks().len() - self.at(),
        {
            reveal(mul_end);
            reveal(mul_rest_end);
            reveal(postfix_end);
            reveal(mul_rest_tree);
            let s = self.span_here();
            match self.peek_kind() {
                Some(TokenKind::Star) => {
                    let ghost a0 = self.store();
                    self.advance();
                    let ghost q1 = self.at();
                    let r = self.parse_expr_postfix()?;
                    let ghost a1 = self.store();
                    let n = self.arena.alloc_expr(Expr::BinMul { left: l, right: r, span: s });
                    proof {
                        let vr = postfix_tree(self.toks(), q1);
                        lemma_grew3(old(self).store(), a0, a1, self.store(), expr_count(vl), expr_count(vr), one_expr());
                        keep_expr(a0, self.store(), l, vl);
                        keep_expr(a1, self.store(), r, vr);
                        lemma_place_binary(old(self).store().sizes(), a0, a1, self.store(), l, r, vl, vr, TokenKind::Star, s);
                        vl = ExprView::Binary(TokenKind::Star, Box::new(vl), Box::new(vr), s);
                        assert(self.holds_expr(n, vl)) by {
                            reveal(expr_is);
                        }
                    }
                    l = n;
                },
                Some(TokenKind::Percent) => {
                    let ghost a0 = self.store();
                    self.advance();
                    let ghost q1 = self.at();
                    let r = self.parse_expr_postfix()?;
                    let ghost a1 = self.store();
                    let n = self.arena.alloc_expr(Expr::BinMod { left: l, right: r, span: s });
                    proof {
                        let vr = postfix_tree(self.toks(), q1);
                        lemma_grew3(old(self).store(), a0, a1, self.store(), expr_count(vl), expr_count(vr), one_expr());
                        keep_expr(a0, self.store(), l, vl);
                        keep_expr(a1, self.store(), r, vr);
                        lemma_place_binary(old(self).store().sizes(), a0, a1, self.store(), l, r, vl, vr, TokenKind::Percent, s);
                        vl = ExprView::Binary(TokenKind::Percent, Box::new(vl), Box::new(vr), s);
                        assert(self.holds_expr(n, vl)) by {
                            reveal(expr_is);
                        }
                    }
                    l = n;
                },
                _ => {
                    break;
                },
            }
        }
        Ok(l)
    }

    /// Reads arguments up to a closing `)`, which is left unread.
    #[verifier::spinoff_prover]
    #[verifier::rlimit(80)]
    fn parse_args(&mut self) -> (r: Result<Vec<ExprRef>, String>)
        requires
            old(self).at() <= old(self).toks().len(),
        ensures
            final(self).follows(*old(self)),
            r is Ok ==> final(self).next_kind() == Some(TokenKind::RParen),
            r matches Ok(v) ==> final(self).has_exprs(v@),
            agrees(r is Ok, args_end(old(self).shape(), old(self).at()), final(self).at()),
            r matches Ok(v) ==> final(self).holds_exprs(v@, args_tree(old(self).toks(), old(self).at())),
            r is Ok ==> final(self).added(*old(self), exprs_count(args_tree(old(self).toks(), old(self).at()))),
            r matches Ok(v) ==> (final(self).store().indexable() ==> placed_exprs(final(self).store(), old(self).store().sizes(), v@, args_tree(old(self).toks(), old(self).at()))),
        decreases old(self).toks().len() - old(self).at(), 11nat,
    {
        reveal(args_end);
        reveal(expr_end);
        let mut args: Vec<ExprRef> = Vec::new();
        let ghost mut va: Seq<ExprView> = Seq::empty();
        assert(exprs_are(self.store(), args@, va)) by {
            reveal(exprs_are);
        }
        assert(args_tree(self.toks(), old(self).at()) =~= va + args_tree(self.toks(), self.at()));
        assert(grew(old(self).store(), self.store(), exprs_count(va)));
        proof {
            lemma_place_empty(self.store(), old(self).store().sizes());
        }
        while !self.at_kind(TokenKind::RParen)
            invariant
                self.follows(*old(self)),
                self.has_exprs(args@),
                args_end(old(self).shape(), old(self).at()) == args_end(self.shape(), self.at()),
                self.holds_exprs(args@, va),
                grew(old(self).store(), self.store(), exprs_count(va)),
                self.store().indexable() ==> placed_exprs(self.store(), old(self).store().sizes(), args@, va),
                args_tree(self.toks(), old(self).at()) == va + args_tree(self.toks(), self.at()),
            decreases self.toks().len() - self.at(),
        {
            reveal(args_end);
            reveal(expr_end);
            let ghost a0 = self.store();
            let ghost q0 = self.at();
            let a = self.parse_expr()?;
            proof {
                let x = expr_tree(self.toks(), q0);
                lemma_grew2(old(self).store(), a0, self.store(), exprs_count(va), expr_count(x));
                lemma_place_exprs_push(a0, self.store(), old(self).store().sizes(), args@, va, a, x);
                assert(va.push(x).drop_last() =~= va);
                keep_exprs(a0, self.store(), args@, va);
                assert(args_tree(self.toks(), q0) == seq![x] + args_tree(self.toks(), self.at()))
                    by {
                    reveal(args_tree);
                }
                assert(va + args_tree(self.toks(), q0) =~= va.push(x) + args_tree(
                    self.toks(),
                    self.at(),
                ));
                assert(self.holds_exprs(args@.push(a), va.push(x))) by {
                    reveal(exprs_are);
                    if self.store().indexable() {
                        assert forall|i: int| 0 <= i < va.push(x).len() implies expr_is(
                            self.store(),
                            #[trigger] args@.push(a)[i],
                            va.push(x)[i],
                        ) by {
                            if i < va.len() {
                                assert(args@.push(a)[i] == args@[i]);
                            }
                        }
                    }
                }
                va = va.push(x);
            }
            args.push(a);
        }
        assert(args_tree(self.toks(), self.at()) == Seq::<ExprView>::empty()) by {
            reveal(args_tree);
        }
        assert(va + Seq::<ExprView>::empty() =~= va);
        Ok(args)
    }

    /// Reads one `.Field`, `.method`, `.method(args)` or `?` applied to the operand `e`,
    /// whose tree is `ve`, and gives the node that applies it.
    #[verifier::spinoff_prover]
    #[verifier::rlimit(80)]
    fn parse_postfix_op(
        &mut self,
        e: ExprRef,
        Ghost(ve): Ghost<ExprView>,
        Ghost(zb): Ghost<Sizes>,
    ) -> (r: Result<ExprRef, String>)
        requires
            old(self).at() <= old(self).toks().len(),
            old(self).next_kind() == Some(TokenKind::Dot) || old(self).next_kind() == Some(
                TokenKind::Question,
            ),
            old(self).has_expr(e),
            old(self).holds_expr(e, ve),
            old(self).last_expr(e),
            old(self).placed(zb, ve),
            old(self).store().indexable() ==> old(self).store().sizes() == zb.plus(expr_count(ve)),
        ensures
            final(self).follows(*old(self)),
            r is Ok ==> final(self).at() > old(self).at(),
            r matches Ok(n) ==> final(self).has_expr(n),
            r is Ok ==> postfix_rest_end(old(self).shape(), old(self).at()) == postfix_rest_end(
                final(self).shape(),
                final(self).at(),
            ),
            r is Err ==> postfix_rest_end(old(self).shape(), old(self).at()) is None,
            r matches Ok(n) ==> final(self).holds_expr(
                n,
                postfix_op_tree(old(self).toks(), old(self).at(), ve),
            ),
            r matches Ok(n) ==> (final(self).store().indexable() ==> final(self).store().sizes().plus(
                expr_count(ve),
            ) == old(self).store().sizes().plus(
                expr_count(postfix_op_tree(old(self).toks(), old(self).at(), ve)),
            )),
            r matches Ok(n) ==> final(self).last_expr(n),
            r matches Ok(n) ==> final(self).placed(zb, postfix_op_tree(old(self).toks(), old(self).at(), ve)),
            r is Ok ==> postfix_rest_tree(old(self).toks(), old(self).at(), ve) == postfix_rest_tree(
                final(self).toks(),
                final(self).at(),
                postfix_op_tree(old(self).toks(), old(self).at(), ve),
            ),
        decreases old(self).toks().len() - old(self).at(), 0nat,
    {
        reveal(postfix_rest_end);
        reveal(args_end);
        let ghost a0 = self.store();
        let ghost q0 = self.at();
        let s = self.span_here();
        if self.at_kind(TokenKind::Question) {
            self.advance();
            let n = self.arena.alloc_expr(Expr::TryUnwrap { inner: e, span: s });
            proof {
                if self.store().indexable() {
                    lemma_placed_expr_grow(a0, self.store(), zb, ve);
                    assert(self.placed(zb, postfix_op_tree(self.toks(), q0, ve))) by {
                        reveal(placed_expr);
                        reveal(placed_exprs);
                        reveal(placed_inits);
                        reveal(placed_block);
                        reveal(placed_stmts);
                        reveal(placed_statement);
                        reveal(placed_match);
                        reveal(placed_arms);
                    }
                }
                keep_expr(a0, self.store(), e, ve);
                assert(postfix_rest_tree(self.toks(), q0, ve) == postfix_rest_tree(
                    self.toks(),
                    self.at(),
                    postfix_op_tree(self.toks(), q0, ve),
                )) by {
                    reveal(postfix_rest_tree);
                }
                assert(self.holds_expr(n, postfix_op_tree(self.toks(), q0, ve))) by {
                    reveal(expr_is);
                }
            }
            return Ok(n);
        }
        self.advance();
        match self.peek_kind() {
            Some(TokenKind::PascalIdent) => {
                let f = self.expect_pascal()?;
                let n = self.arena.alloc_expr(Expr::FieldAccess { object: e, field: f, span: s });
                proof {
                    if self.store().indexable() {
                        lemma_placed_expr_grow(a0, self.store(), zb, ve);
                        assert(self.placed(zb, postfix_op_tree(self.toks(), q0, ve))) by {
                            reveal(placed_expr);
                        reveal(placed_exprs);
                        reveal(placed_inits);
                        reveal(placed_block);
                        reveal(placed_stmts);
                        reveal(placed_statement);
                        reveal(placed_match);
                        reveal(placed_arms);
                        }
                    }
                    keep_expr(a0, self.store(), e, ve);
                    assert(postfix_rest_tree(self.toks(), q0, ve) == postfix_rest_tree(
                        self.toks(),
                        self.at(),
                        postfix_op_tree(self.toks(), q0, ve),
                    )) by {
                        reveal(postfix_rest_tree);
                    }
                    assert(self.holds_expr(n, postfix_op_tree(self.toks(), q0, ve))) by {
                        reveal(expr_is);
                    }
                }
                Ok(n)
            },
            Some(TokenKind::CamelIdent) => {
                let m = self.expect_camel()?;
                let mut args: Vec<ExprRef> = Vec::new();
                let ghost mut a1 = self.store();
                let ghost mut va: Seq<ExprView> = Seq::empty();
                assert(grew(a0, a1, exprs_count(va)));
                proof {
                    lemma_place_empty(a1, a0.sizes());
                }
                assert(exprs_are(a1, args@, va)) by {
                    reveal(exprs_are);
                }
                if self.at_kind(TokenKind::LParen) {
                    self.advance();
                    let ghost q3 = self.at();
                    args = self.parse_args()?;
                    self.expect(TokenKind::RParen)?;
                    proof {
                        a1 = self.store();
                        va = args_tree(self.toks(), q3);
                    }
                }
                let ghost refs = args@;
                let n = self.arena.alloc_expr(
                    Expr::MethodCall { object: e, method: m, args, span: s },
                );
                proof {
                    let v2 = ExprView::Call(Box::new(ve), m.0@, va, s);
                    assert(v2 == postfix_op_tree(self.toks(), q0, ve));
                    lemma_grew2(a0, a1, self.store(), exprs_count(va), one_expr());
                    if self.store().indexable() {
                        assert(a1.indexable());
                        lemma_placed_expr_grow(a0, self.store(), zb, ve);
                        lemma_placed_exprs_grow(a1, self.store(), a0.sizes(), refs, va);
                        assert(self.placed(zb, v2)) by {
                            reveal(placed_expr);
                        reveal(placed_exprs);
                        reveal(placed_inits);
                        reveal(placed_block);
                        reveal(placed_stmts);
                        reveal(placed_statement);
                        reveal(placed_match);
                        reveal(placed_arms);
                        }
                    }
                    keep_expr(a0, self.store(), e, ve);
                    keep_exprs(a1, self.store(), refs, va);
                    assert(postfix_rest_tree(self.toks(), q0, ve) == postfix_rest_tree(
                        self.toks(),
                        self.at(),
                        v2,
                    )) by {
                        reveal(postfix_rest_tree);
                    }
                    assert(self.holds_expr(n, v2)) by {
                        reveal(expr_is);
                        reveal(exprs_are);
                    }
                }
                Ok(n)
            },
            _ => Err(unexpected_found("field/method", self.peek_tok())),
        }
    }

    /// Reads an atom, then any `.Field`, `.method`, `.method(args)` and `?` after it.
    #[verifier::spinoff_prover]
    #[verifier::rlimit(30)]
    fn parse_expr_postfix(&mut self) -> (r: Result<ExprRef, String>)
        requires
            old(self).at() <= old(self).toks().len(),
        ensures
            final(self).follows(*old(self)),
            r is Ok ==> final(self).at() > old(self).at(),
            r matches Ok(e) ==> final(self).has_expr(e),
            agrees(r is Ok, postfix_end(old(self).shape(), old(self).at()), final(self).at()),
            r matches Ok(e) ==> final(self).holds_expr(e, postfix_tree(old(self).toks(), old(self).at())),
            r matches Ok(e) ==> final(self).added(*old(self), expr_count(postfix_tree(old(self).toks(), old(self).at()))),
            r matches Ok(e) ==> final(self).placed(old(self).store().sizes(), postfix_tree(old(self).toks(), old(self).at())),
            r matches Ok(e) ==> final(self).last_expr(e),
        decreases old(self).toks().len() - old(self).at(), 3nat,
    {
        let first = self.parse_expr_atom();
        let mut e = match first {
            Ok(x) => x,
            Err(m) => {
                assert(postfix_end(old(self).shape(), old(self).at()) is None) by {
                    reveal(postfix_end);
                    reveal(atom_end);
                    reveal(postfix_rest_end);
                }
                return Err(m);
            },
        };
        assert(postfix_end(old(self).shape(), old(self).at()) == postfix_rest_end(
            self.shape(),
            self.at(),
        )) by {
            reveal(postfix_end);
            reveal(atom_end);
            reveal(postfix_rest_end);
        }
        let ghost mut ve: ExprView = atom_tree(self.toks(), old(self).at());
        assert(postfix_tree(self.toks(), old(self).at()) == postfix_rest_tree(
            self.toks(),
            self.at(),
            ve,
        )) by {
            reveal(postfix_tree);
            reveal(postfix_rest_tree);
            reveal(atom_tree);
        }
        loop
            invariant
                self.follows(*old(self)),
                self.at() > old(self).at(),
                self.has_expr(e),
                postfix_end(old(self).shape(), old(self).at()) == postfix_rest_end(
                    self.shape(),
                    self.at(),
                ),
                self.holds_expr(e, ve),
                grew(old(self).store(), self.store(), expr_count(ve)),
                self.last_expr(e),
                self.placed(old(self).store().sizes(), ve),
                postfix_tree(self.toks(), old(self).at()) == postfix_rest_tree(
                    self.toks(),
                    self.at(),
                    ve,
                ),
            ensures
                self.next_kind() != Some(TokenKind::Dot),
                self.next_kind() != Some(TokenKind::Question),
            decreases self.toks().len() - self.at(),
        {
            let ghost q0 = self.at();
            match self.peek_kind() {
                Some(TokenKind::Dot) | Some(TokenKind::Question) => {
                    let ghost a0 = self.store();
                    let n = self.parse_postfix_op(e, Ghost(ve), Ghost(old(self).store().sizes()))?;
                    proof {
                        if self.store().indexable() {
                            assert(a0.indexable());
                        }
                    }
                    proof {
                        ve = postfix_op_tree(self.toks(), q0, ve);
                    }
                    e = n;
                },
                _ => {
                    break;
                },
            }
        }
        assert(postfix_rest_tree(self.toks(), self.at(), ve) == ve) by {
            reveal(postfix_rest_tree);
        }
        assert(postfix_rest_end(self.shape(), self.at()) == Some(self.at())) by {
            reveal(postfix_rest_end);
        }
        Ok(e)
    }

    /// Reads field initializers `(Name value)` up to a closing `}`, which is left unread.
    #[verifier::spinoff_prover]
    #[verifier::rlimit(80)]
    fn parse_field_inits(&mut self) -> (r: Result<Vec<FieldInitRef>, String>)
        requires
            old(self).at() <= old(self).toks().len(),
        ensures
            final(self).follows(*old(self)),
            r is Ok ==> final(self).next_kind() == Some(TokenKind::RBrace),
            r matches Ok(v) ==> (final(self).store().indexable() ==> field_inits_below(
                v@,
                final(self).store().sizes().field_inits,
            )),
            agrees(r is Ok, field_inits_end(old(self).shape(), old(self).at()), final(self).at()),
            r matches Ok(v) ==> final(self).holds_inits(v@, inits_tree(old(self).toks(), old(self).at())),
            r is Ok ==> final(self).added(*old(self), inits_count(inits_tree(old(self).toks(), old(self).at()))),
            r matches Ok(v) ==> (final(self).store().indexable() ==> placed_inits(final(self).store(), old(self).store().sizes(), v@, inits_tree(old(self).toks(), old(self).at()))),
        decreases old(self).toks().len() - old(self).at(), 11nat,
    {
        reveal(field_inits_end);
        reveal(expr_end);
        let mut refs: Vec<FieldInitRef> = Vec::new();
        let ghost mut vs: Seq<(Seq<char>, ExprView)> = Seq::empty();
        assert(inits_are(self.store(), refs@, vs)) by {
            reveal(inits_are);
        }
        assert(inits_tree(self.toks(), old(self).at()) =~= vs + inits_tree(self.toks(), self.at()));
        assert(grew(old(self).store(), self.store(), inits_count(vs)));
        proof {
            lemma_place_empty(self.store(), old(self).store().sizes());
        }
        while !self.at_kind(TokenKind::RBrace)
            invariant
                self.follows(*old(self)),
                self.store().indexable() ==> field_inits_below(
                    refs@,
                    self.store().sizes().field_inits,
                ),
                field_inits_end(old(self).shape(), old(self).at()) == field_inits_end(
                    self.shape(),
                    self.at(),
                ),
                self.holds_inits(refs@, vs),
                grew(old(self).store(), self.store(), inits_count(vs)),
                self.store().indexable() ==> placed_inits(self.store(), old(self).store().sizes(), refs@, vs),
                inits_tree(self.toks(), old(self).at()) == vs + inits_tree(self.toks(), self.at()),
            decreases self.toks().len() - self.at(),
        {
            reveal(field_inits_end);
            reveal(expr_end);
            if self.at_end() {
                return Err(String::from_str("unexpected EOF in struct construct"));
            }
            let ghost q0 = self.at();
            let ghost a0 = self.store();
            self.expect(TokenKind::LParen)?;
            let ghost q1 = self.at();
            let name = self.expect_pascal()?;
            let ghost q2 = self.at();
            let value = self.parse_expr()?;
            self.expect(TokenKind::RParen)?;
            let ghost a1 = self.store();
            let fi = self.arena.alloc_field_init(FieldInit { name, value });
            proof {
                let x = (text_of(self.toks(), q1), expr_tree(self.toks(), q2));
                lemma_grew3(old(self).store(), a0, a1, self.store(), inits_count(vs), expr_count(x.1), one_init());
                lemma_place_inits_push(a0, a1, self.store(), old(self).store().sizes(), refs@, vs, fi, value, x);
                assert(vs.push(x).drop_last() =~= vs);
                keep_inits(a0, self.store(), refs@, vs);
                keep_expr(a1, self.store(), value, x.1);
                assert(inits_tree(self.toks(), q0) == seq![x] + inits_tree(self.toks(), self.at()))
                    by {
                    reveal(inits_tree);
                    reveal(expr_tree);
                }
                assert(vs + inits_tree(self.toks(), q0) =~= vs.push(x) + inits_tree(
                    self.toks(),
                    self.at(),
                ));
                assert(self.holds_inits(refs@.push(fi), vs.push(x))) by {
                    reveal(inits_are);
                    if self.store().indexable() {
                        assert forall|i: int| 0 <= i < vs.push(x).len() implies {
                            &&& (#[trigger] refs@.push(fi)[i]).0 < self.store().field_inits@.len()
                            &&& self.store().field_inits@[refs@.push(fi)[i].0 as int].name.0@
                                == vs.push(x)[i].0
                            &&& expr_is(
                                self.store(),
                                self.store().field_inits@[refs@.push(fi)[i].0 as int].value,
                                vs.push(x)[i].1,
                            )
                        } by {
                            if i < vs.len() {
                                assert(refs@.push(fi)[i] == refs@[i]);
                            }
                        }
                    }
                }
                vs = vs.push(x);
            }
            refs.push(fi);
        }
        assert(inits_tree(self.toks(), self.at()) == Seq::<(Seq<char>, ExprView)>::empty()) by {
            reveal(inits_tree);
        }
        assert(vs + Seq::<(Seq<char>, ExprView)>::empty() =~= vs);
        Ok(refs)
    }

    /// Reads a primary expression; which kind is decided by the next token.
    #[verifier::spinoff_prover]
    #[verifier::rlimit(100)]
    fn parse_expr_atom(&mut self) -> (r: Result<ExprRef, String>)
        requires
            old(self).at() <= old(self).toks().len(),
        ensures
            final(self).follows(*old(self)),
            r is Ok ==> final(self).at() > old(self).at(),
            r matches Ok(e) ==> final(self).has_expr(e),
            agrees(r is Ok, atom_end(old(self).shape(), old(self).at()), final(self).at()),
            r matches Ok(e) ==> final(self).holds_expr(e, atom_tree(old(self).toks(), old(self).at())),
            r matches Ok(e) ==> final(self).added(*old(self), expr_count(atom_tree(old(self).toks(), old(self).at()))),
            r matches Ok(e) ==> final(self).placed(old(self).store().sizes(), atom_tree(old(self).toks(), old(self).at())),
            r matches Ok(e) ==> final(self).last_expr(e),
        decreases old(self).toks().len() - old(self).at(), 2nat,
    {
        reveal(atom_end);
        reveal(args_end);
        reveal(block_end);
        reveal(match_end);
        reveal(loop_end);
        reveal(iteration_end);
        reveal(field_inits_end);
        let ghost t = self.toks();
        let ghost p = self.at();
        let s = self.span_here();
        match self.peek_tok() {
            Some(Token::At) => {
                self.advance();
                let n = self.expect_pascal()?;
                let e = self.arena.alloc_expr(Expr::InstanceRef { name: n, span: s });
                assert(self.holds_expr(e, atom_tree(t, p)) && self.added(*old(self), expr_count(atom_tree(t, p)))) by {
                    reveal(expr_is);
                    reveal(atom_tree);
                }
                assert(self.placed(old(self).store().sizes(), atom_tree(t, p))) by {
                    reveal(atom_tree);
                    reveal(placed_expr);
                    reveal(placed_exprs);
                    reveal(placed_inits);
                    reveal(placed_block);
                    reveal(placed_stmts);
                    reveal(placed_statement);
                    reveal(placed_match);
                    reveal(placed_arms);
                }
                Ok(e)
            },
            Some(Token::PascalIdent(_)) => {
                let n = self.expect_pascal()?;
                if self.at_kind(TokenKind::Slash) {
                    self.advance();
                    match self.peek_kind() {
                        Some(TokenKind::PascalIdent) => {
                            let v = self.expect_pascal()?;
                            let e = self.arena.alloc_expr(
                                Expr::PathVariant { typ: n, variant: v, span: s },
                            );
                            assert(self.holds_expr(e, atom_tree(t, p)) && self.added(*old(self), expr_count(atom_tree(t, p)))) by {
                                reveal(expr_is);
                                reveal(atom_tree);
                            }
                            assert(self.placed(old(self).store().sizes(), atom_tree(t, p))) by {
                                reveal(atom_tree);
                                reveal(placed_expr);
                                reveal(placed_exprs);
                                reveal(placed_inits);
                                reveal(placed_block);
                                reveal(placed_stmts);
                                reveal(placed_statement);
                                reveal(placed_match);
                                reveal(placed_arms);
                            }
                Ok(e)
                        },
                        Some(TokenKind::CamelIdent) => {
                            let m = self.expect_camel()?;
                            self.expect(TokenKind::LParen)?;
                            let ghost q2 = self.at();
                            let args = self.parse_args()?;
                            self.expect(TokenKind::RParen)?;
                            let ghost a1 = self.store();
                            let ghost refs = args@;
                            let e = self.arena.alloc_expr(
                                Expr::PathMethod { typ: n, method: m, args, span: s },
                            );
                            proof {
                                lemma_grew2(old(self).store(), a1, self.store(), exprs_count(args_tree(t, q2)), one_expr());
                                if self.store().indexable() {
                                    assert(a1.indexable());
                                    lemma_placed_exprs_grow(a1, self.store(), old(self).store().sizes(), refs, args_tree(t, q2));
                                }
                                keep_exprs(a1, self.store(), refs, args_tree(t, q2));
                            }
                            assert(self.holds_expr(e, atom_tree(t, p)) && self.added(*old(self), expr_count(atom_tree(t, p)))) by {
                                reveal(expr_is);
                                reveal(exprs_are);
                                reveal(atom_tree);
                            }
                            assert(self.placed(old(self).store().sizes(), atom_tree(t, p))) by {
                                reveal(atom_tree);
                                reveal(placed_expr);
                                reveal(placed_exprs);
                                reveal(placed_inits);
                                reveal(placed_block);
                                reveal(placed_stmts);
                                reveal(placed_statement);
                                reveal(placed_match);
                                reveal(placed_arms);
                            }
                Ok(e)
                        },
                        _ => Err(unexpected_found("variant/method after /", self.peek_tok())),
                    }
                } else {
                    let e = self.arena.alloc_expr(Expr::InstanceRef { name: n, span: s });
                    assert(self.holds_expr(e, atom_tree(t, p)) && self.added(*old(self), expr_count(atom_tree(t, p)))) by {
                        reveal(expr_is);
                        reveal(atom_tree);
                    }
                    assert(self.placed(old(self).store().sizes(), atom_tree(t, p))) by {
                        reveal(atom_tree);
                        reveal(placed_expr);
                        reveal(placed_exprs);
                        reveal(placed_inits);
                        reveal(placed_block);
                        reveal(placed_stmts);
                        reveal(placed_statement);
                        reveal(placed_match);
                        reveal(placed_arms);
                    }
                Ok(e)
                }
            },
            Some(Token::Integer(v)) => {
                let value: i64 = *v;
                self.advance();
                let e = self.arena.alloc_expr(Expr::IntLit { value, span: s });
                assert(self.holds_expr(e, atom_tree(t, p)) && self.added(*old(self), expr_count(atom_tree(t, p)))) by {
                    reveal(expr_is);
                    reveal(atom_tree);
                }
                assert(self.placed(old(self).store().sizes(), atom_tree(t, p))) by {
                    reveal(atom_tree);
                    reveal(placed_expr);
                    reveal(placed_exprs);
                    reveal(placed_inits);
                    reveal(placed_block);
                    reveal(placed_stmts);
                    reveal(placed_statement);
                    reveal(placed_match);
                    reveal(placed_arms);
                }
                Ok(e)
            },
            Some(Token::Float(v)) => {
                let value = v.clone();
                self.advance();
                let e = self.arena.alloc_expr(Expr::FloatLit { value, span: s });
                assert(self.holds_expr(e, atom_tree(t, p)) && self.added(*old(self), expr_count(atom_tree(t, p)))) by {
                    reveal(expr_is);
                    reveal(atom_tree);
                }
                assert(self.placed(old(self).store().sizes(), atom_tree(t, p))) by {
                    reveal(atom_tree);
                    reveal(placed_expr);
                    reveal(placed_exprs);
                    reveal(placed_inits);
                    reveal(placed_block);
                    reveal(placed_stmts);
                    reveal(placed_statement);
                    reveal(placed_match);
                    reveal(placed_arms);
                }
                Ok(e)
            },
            Some(Token::StringLit(v)) => {
                let value = v.clone();
                self.advance();
                let e = self.arena.alloc_expr(Expr::StringLit { value, span: s });
                assert(self.holds_expr(e, atom_tree(t, p)) && self.added(*old(self), expr_count(atom_tree(t, p)))) by {
                    reveal(expr_is);
                    reveal(atom_tree);
                }
                assert(self.placed(old(self).store().sizes(), atom_tree(t, p))) by {
                    reveal(atom_tree);
                    reveal(placed_expr);
                    reveal(placed_exprs);
                    reveal(placed_inits);
                    reveal(placed_block);
                    reveal(placed_stmts);
                    reveal(placed_statement);
                    reveal(placed_match);
                    reveal(placed_arms);
                }
                Ok(e)
            },
            Some(Token::LBracket) | Some(Token::LParenPipe) | Some(Token::LBracketPipe) | Some(
                Token::LBracePipe,
            ) | Some(Token::LBrace) => self.parse_expr_compound(),
            other => Err(unexpected_found("expression", other)),
        }
    }

    /// Reads a primary expression that opens with a bracket: an inline block, a match, a
    /// loop, an iteration or a struct construction.
    #[verifier::spinoff_prover]
    #[verifier::rlimit(100)]
    fn parse_expr_compound(&mut self) -> (r: Result<ExprRef, String>)
        requires
            old(self).at() <= old(self).toks().len(),
            old(self).next_kind() == Some(TokenKind::LBracket) || old(self).next_kind() == Some(
                TokenKind::LParenPipe,
            ) || old(self).next_kind() == Some(TokenKind::LBracketPipe) || old(self).next_kind()
                == Some(TokenKind::LBracePipe) || old(self).next_kind() == Some(TokenKind::LBrace),
        ensures
            final(self).follows(*old(self)),
            r is Ok ==> final(self).at() > old(self).at(),
            r matches Ok(e) ==> final(self).has_expr(e),
            agrees(r is Ok, atom_end(old(self).shape(), old(self).at()), final(self).at()),
            r matches Ok(e) ==> final(self).holds_expr(e, atom_tree(old(self).toks(), old(self).at())),
            r matches Ok(e) ==> final(self).added(*old(self), expr_count(atom_tree(old(self).toks(), old(self).at()))),
            r matches Ok(e) ==> final(self).placed(old(self).store().sizes(), atom_tree(old(self).toks(), old(self).at())),
            r matches Ok(e) ==> final(self).last_expr(e),
        decreases old(self).toks().len() - old(self).at(), 1nat,
    {
        reveal(atom_end);
        reveal(args_end);
        reveal(block_end);
        reveal(match_end);
        reveal(loop_end);
        reveal(iteration_end);
        reveal(field_inits_end);
        let ghost t = self.toks();
        let ghost p = self.at();
        let s = self.span_here();
        match self.peek_tok() {
            Some(Token::LBracket) => {
                let b = self.parse_block()?;
                let ghost a1 = self.store();
                let e = self.arena.alloc_expr(Expr::InlineEval(b));
                proof {
                    lemma_grew2(old(self).store(), a1, self.store(), block_count(block_tree(t, p)), one_expr());
                    if self.store().indexable() {
                        assert(a1.indexable());
                        lemma_placed_block_grow(a1, self.store(), old(self).store().sizes(), block_tree(t, p));
                    }
                    keep_block(a1, self.store(), b, block_tree(t, p));
                }
                assert(self.holds_expr(e, atom_tree(t, p)) && self.added(*old(self), expr_count(atom_tree(t, p)))) by {
                    reveal(expr_is);
                    reveal(block_is);
                    reveal(atom_tree);
                }
                assert(self.placed(old(self).store().sizes(), atom_tree(t, p))) by {
                    reveal(atom_tree);
                    reveal(placed_expr);
                    reveal(placed_exprs);
                    reveal(placed_inits);
                    reveal(placed_block);
                    reveal(placed_stmts);
                    reveal(placed_statement);
                    reveal(placed_match);
                    reveal(placed_arms);
                }
                Ok(e)
            },
            Some(Token::LParenPipe) => {
                let m = self.parse_match_expr()?;
                let ghost a1 = self.store();
                let e = self.arena.alloc_expr(Expr::Match(m));
                proof {
                    lemma_grew2(old(self).store(), a1, self.store(), match_count(match_tree(t, p)), one_expr());
                    if self.store().indexable() {
                        assert(a1.indexable());
                        lemma_placed_match_grow(a1, self.store(), old(self).store().sizes(), match_tree(t, p));
                    }
                    keep_match(a1, self.store(), m, match_tree(t, p));
                }
                assert(self.holds_expr(e, atom_tree(t, p)) && self.added(*old(self), expr_count(atom_tree(t, p)))) by {
                    reveal(expr_is);
                    reveal(match_is);
                    reveal(atom_tree);
                }
                assert(self.placed(old(self).store().sizes(), atom_tree(t, p))) by {
                    reveal(atom_tree);
                    reveal(placed_expr);
                    reveal(placed_exprs);
                    reveal(placed_inits);
                    reveal(placed_block);
                    reveal(placed_stmts);
                    reveal(placed_statement);
                    reveal(placed_match);
                    reveal(placed_arms);
                }
                Ok(e)
            },
            Some(Token::LBracketPipe) => {
                let b = self.parse_loop_block()?;
                let ghost a1 = self.store();
                let e = self.arena.alloc_expr(Expr::Loop(b));
                proof {
                    lemma_grew2(old(self).store(), a1, self.store(), block_count(loop_tree(t, p)), one_expr());
                    if self.store().indexable() {
                        assert(a1.indexable());
                        lemma_placed_block_grow(a1, self.store(), old(self).store().sizes(), loop_tree(t, p));
                    }
                    keep_block(a1, self.store(), b, loop_tree(t, p));
                }
                assert(self.holds_expr(e, atom_tree(t, p)) && self.added(*old(self), expr_count(atom_tree(t, p)))) by {
                    reveal(expr_is);
                    reveal(block_is);
                    reveal(atom_tree);
                }
                assert(self.placed(old(self).store().sizes(), atom_tree(t, p))) by {
                    reveal(atom_tree);
                    reveal(placed_expr);
                    reveal(placed_exprs);
                    reveal(placed_inits);
                    reveal(placed_block);
                    reveal(placed_stmts);
                    reveal(placed_statement);
                    reveal(placed_match);
                    reveal(placed_arms);
                }
                Ok(e)
            },
            Some(Token::LBracePipe) => {
                let (src, body) = self.parse_iteration()?;
                let ghost a1 = self.store();
                let e = self.arena.alloc_expr(Expr::Iteration { source: src, body });
                proof {
                    lemma_grew2(old(self).store(), a1, self.store(), expr_count(iteration_tree(t, p).0).plus(block_count(iteration_tree(t, p).1)), one_expr());
                    if self.store().indexable() {
                        assert(a1.indexable());
                        lemma_placed_expr_grow(a1, self.store(), old(self).store().sizes(), iteration_tree(t, p).0);
                        lemma_placed_block_grow(a1, self.store(), old(self).store().sizes().plus(expr_count(iteration_tree(t, p).0)), iteration_tree(t, p).1);
                    }
                    keep_expr(a1, self.store(), src, iteration_tree(t, p).0);
                    keep_block(a1, self.store(), body, iteration_tree(t, p).1);
                }
                assert(self.holds_expr(e, atom_tree(t, p)) && self.added(*old(self), expr_count(atom_tree(t, p)))) by {
                    reveal(expr_is);
                    reveal(block_is);
                    reveal(atom_tree);
                }
                assert(self.placed(old(self).store().sizes(), atom_tree(t, p))) by {
                    reveal(atom_tree);
                    reveal(placed_expr);
                    reveal(placed_exprs);
                    reveal(placed_inits);
                    reveal(placed_block);
                    reveal(placed_stmts);
                    reveal(placed_statement);
                    reveal(placed_match);
                    reveal(placed_arms);
                }
                Ok(e)
            },
            Some(Token::LBrace) => {
                self.expect(TokenKind::LBrace)?;
                let typ = self.expect_pascal()?;
                let ghost q = self.at();
                let refs = self.parse_field_inits()?;
                self.expect(TokenKind::RBrace)?;
                let ghost a1 = self.store();
                let ghost rv = refs@;
                let e = self.arena.alloc_expr(Expr::StructConstruct { typ, fields: refs, span: s });
                proof {
                    lemma_grew2(old(self).store(), a1, self.store(), inits_count(inits_tree(t, q)), one_expr());
                    if self.store().indexable() {
                        assert(a1.indexable());
                        lemma_placed_inits_grow(a1, self.store(), old(self).store().sizes(), rv, inits_tree(t, q));
                    }
                    keep_inits(a1, self.store(), rv, inits_tree(t, q));
                }
                assert(self.holds_expr(e, atom_tree(t, p)) && self.added(*old(self), expr_count(atom_tree(t, p)))) by {
                    reveal(expr_is);
                    reveal(inits_are);
                    reveal(atom_tree);
                }
                assert(self.placed(old(self).store().sizes(), atom_tree(t, p))) by {
                    reveal(atom_tree);
                    reveal(placed_expr);
                    reveal(placed_exprs);
                    reveal(placed_inits);
                    reveal(placed_block);
                    reveal(placed_stmts);
                    reveal(placed_statement);
                    reveal(placed_match);
                    reveal(placed_arms);
                }
                Ok(e)
            },
            _ => Err(unexpected_found("expression", self.peek_tok())),
        }
    }

    /// Reads one match arm `(Pattern | ..) result`.
    #[verifier::spinoff_prover]
    #[verifier::rlimit(80)]
    fn parse_match_arm(&mut self) -> (r: Result<MatchArmRef, String>)
        requires
            old(self).at() <= old(self).toks().len(),
            old(self).next_kind() is Some,
            old(self).next_kind() != Some(TokenKind::RPipeParen),
        ensures
            final(self).follows(*old(self)),
            r is Ok ==> final(self).at() > old(self).at(),
            r matches Ok(a) ==> (final(self).store().indexable() ==> a.0
                < final(self).store().sizes().match_arms),
            r is Ok ==> arms_end(old(self).shape(), old(self).at()) == arms_end(
                final(self).shape(),
                final(self).at(),
            ),
            r is Err ==> arms_end(old(self).shape(), old(self).at()) is None,
            r is Ok ==> arms_tree(old(self).toks(), old(self).at()).len() > 0
                && arms_tree(old(self).toks(), old(self).at()).drop_first() == arms_tree(
                final(self).toks(),
                final(self).at(),
            ),
            r matches Ok(a) ==> final(self).holds_arms(
                seq![a],
                seq![arms_tree(old(self).toks(), old(self).at())[0]],
            ),
            r is Ok ==> final(self).added(
                *old(self),
                arms_count(seq![arms_tree(old(self).toks(), old(self).at())[0]]),
            ),
            r matches Ok(a) ==> final(self).last_arm(a),
            r matches Ok(a) ==> (final(self).store().indexable() ==> placed_arms(final(self).store(), old(self).store().sizes(), seq![a], seq![arms_tree(old(self).toks(), old(self).at())[0]])),
        decreases old(self).toks().len() - old(self).at(), 0nat,
    {
        reveal(arms_end);
        reveal(expr_end);
        let ghost t = self.toks();
        let ghost q0 = self.at();
        self.expect(TokenKind::LParen)?;
        let ghost p1 = self.at();
        let mut pats: Vec<Pattern> = Vec::new();
        let p = self.parse_pattern()?;
        pats.push(p);
        proof {
            assert(pattern_views(pats@) =~= seq![pattern_tree(t, p1)]);
        }
        while self.at_kind(TokenKind::Pipe)
            invariant
                self.follows(*old(self)),
                q0 == old(self).at(),
                old(self).next_kind() is Some,
                old(self).next_kind() != Some(TokenKind::RPipeParen),
                self.toks() == t,
                self.store() == old(self).store(),
                q0 < p1 < self.at() <= self.toks().len(),
                tok(self.shape(), q0, TokenKind::LParen) == Some(p1),
                pattern_end(self.shape(), p1) is Some,
                more_patterns_end(self.shape(), pattern_end(self.shape(), p1)->0)
                    == more_patterns_end(self.shape(), self.at()),
                pattern_views(pats@) + more_patterns_tree(t, self.at()) == patterns_tree(t, p1),
            decreases self.toks().len() - self.at(),
        {
            reveal(arms_end);
            let ghost m0 = self.at();
            let ghost before_pats = pats@;
            self.advance();
            let ghost m1 = self.at();
            let p = self.parse_pattern()?;
            pats.push(p);
            proof {
                assert(more_patterns_tree(t, m0) == seq![pattern_tree(t, m1)] + more_patterns_tree(
                    t,
                    self.at(),
                ));
                assert(pattern_views(pats@) =~= pattern_views(before_pats).push(
                    pattern_tree(t, m1),
                ));
                assert(pattern_views(before_pats) + more_patterns_tree(t, m0) =~= pattern_views(
                    pats@,
                ) + more_patterns_tree(t, self.at()));
            }
        }
        proof {
            assert(more_patterns_tree(t, self.at()) =~= Seq::<PatternView>::empty());
            assert(pattern_views(pats@) =~= patterns_tree(t, p1));
        }
        self.expect(TokenKind::RParen)?;
        let ghost q4 = self.at();
        let result = self.parse_expr()?;
        let ghost a1 = self.store();
        let arm = self.arena.alloc_match_arm(MatchArm { patterns: pats, result });
        proof {
            let x = (patterns_tree(t, p1), expr_tree(t, q4));
            lemma_grew2(old(self).store(), a1, self.store(), expr_count(x.1), one_arm());
            assert(seq![x].drop_last() =~= Seq::<(Seq<PatternView>, ExprView)>::empty());
            lemma_arms_count_push(Seq::empty(), x);
            keep_expr(a1, self.store(), result, x.1);
            assert(arms_tree(t, q0) == seq![x] + arms_tree(t, self.at())) by {
                reveal(arms_tree);
                reveal(expr_tree);
            }
            assert((seq![x] + arms_tree(t, self.at())).drop_first() =~= arms_tree(t, self.at()));
            assert(arms_tree(t, q0)[0] == x);
            if self.store().indexable() {
                assert(a1.indexable());
                lemma_placed_expr_grow(a1, self.store(), old(self).store().sizes(), x.1);
                assert(old(self).store().sizes().plus(Sizes::none()) == old(self).store().sizes());
                assert(placed_arms(self.store(), old(self).store().sizes(), seq![arm], seq![x])) by {
                    reveal(placed_expr);
                    reveal(placed_exprs);
                    reveal(placed_inits);
                    reveal(placed_block);
                    reveal(placed_stmts);
                    reveal(placed_statement);
                    reveal(placed_match);
                    reveal(placed_arms);
                    assert(seq![x].drop_last() =~= Seq::<(Seq<PatternView>, ExprView)>::empty());
                    assert(seq![arm].drop_last() =~= Seq::<MatchArmRef>::empty());
                    assert(arms_count(Seq::<(Seq<PatternView>, ExprView)>::empty()) == Sizes::none());
                    assert(seq![x].last() == x);
                    assert(seq![arm].last() == arm);
                    assert(placed_arms(self.store(), old(self).store().sizes(), Seq::<MatchArmRef>::empty(), Seq::<(Seq<PatternView>, ExprView)>::empty()));
                    assert(a1.sizes() == old(self).store().sizes().plus(expr_count(x.1)));
                    assert(arm.0 == a1.match_arms@.len());
                    assert(self.store().match_arms@[arm.0 as int].result == result);
                    assert(result.0 == expr_slot(old(self).store().sizes(), x.1));
                }
            }
            assert(self.holds_arms(seq![arm], seq![x])) by {
                reveal(arms_are);
            }
        }
        Ok(arm)
    }

    /// Reads a match `(| target? (Pattern | ..) result .. |)`.
    #[verifier::spinoff_prover]
    #[verifier::rlimit(80)]
    fn parse_match_expr(&mut self) -> (r: Result<MatchRef, String>)
        requires
            old(self).at() <= old(self).toks().len(),
        ensures
            final(self).follows(*old(self)),
            r is Ok ==> final(self).at() > old(self).at(),
            r is Ok ==> old(self).next_kind() == Some(TokenKind::LParenPipe),
            r matches Ok(m) ==> final(self).has_match(m),
            agrees(r is Ok, match_end(old(self).shape(), old(self).at()), final(self).at()),
            r matches Ok(m) ==> final(self).holds_match(m, match_tree(old(self).toks(), old(self).at())),
            r matches Ok(m) ==> final(self).added(*old(self), match_count(match_tree(old(self).toks(), old(self).at()))),
            r matches Ok(m) ==> (final(self).store().indexable() ==> placed_match(final(self).store(), old(self).store().sizes(), match_tree(old(self).toks(), old(self).at()))),
            r matches Ok(m) ==> final(self).last_match(m),
        decreases old(self).toks().len() - old(self).at(), 0nat,
    {
        reveal(match_end);
        reveal(arms_end);
        reveal(expr_end);
        let ghost t = self.toks();
        self.expect(TokenKind::LParenPipe)?;
        let ghost q = self.at();
        let mut target: Option<ExprRef> = None;
        let mut arms: Vec<MatchArmRef> = Vec::new();
        if !self.at_kind(TokenKind::LParen) && !self.at_kind(TokenKind::RPipeParen) {
            let x = self.parse_expr()?;
            target = Some(x);
        }
        let ghost q1 = self.at();
        let ghost has_target = kind_at(self.shape(), q) != Some(TokenKind::LParen) && kind_at(
            self.shape(),
            q,
        ) != Some(TokenKind::RPipeParen);
        let ghost mut va: Seq<(Seq<PatternView>, ExprView)> = Seq::empty();
        let ghost tc: Sizes = if has_target {
            expr_count(expr_tree(t, q))
        } else {
            Sizes::none()
        };
        assert(arms_are(self.store(), arms@, va)) by {
            reveal(arms_are);
        }
        assert(arms_tree(t, q1) =~= va + arms_tree(t, self.at()));
        assert(grew(old(self).store(), self.store(), tc.plus(arms_count(va))));
        proof {
            lemma_place_empty(self.store(), old(self).store().sizes().plus(tc));
        }
        while !self.at_kind(TokenKind::RPipeParen)
            invariant
                self.follows(*old(self)),
                self.at() > old(self).at(),
                target matches Some(x) ==> self.has_expr(x),
                self.store().indexable() ==> arms_below(arms@, self.store().sizes().match_arms),
                match_end(old(self).shape(), old(self).at()) == match arms_end(
                    self.shape(),
                    self.at(),
                ) {
                    Some(e) => tok(self.shape(), e, TokenKind::RPipeParen),
                    None => None,
                },
                t == self.toks(),
                old(self).at() < q <= q1 <= self.at(),
                target matches Some(x) ==> self.holds_expr(x, expr_tree(t, q)),
                self.holds_arms(arms@, va),
                arms_tree(t, q1) == va + arms_tree(t, self.at()),
                (target is Some) == has_target,
                grew(old(self).store(), self.store(), tc.plus(arms_count(va))),
                self.store().indexable() ==> placed_arms(self.store(), old(self).store().sizes().plus(tc), arms@, va),
                target matches Some(x) ==> (self.store().indexable() ==> x.0 == expr_slot(old(self).store().sizes(), expr_tree(t, q)) && placed_expr(self.store(), old(self).store().sizes(), expr_tree(t, q))),
                tc == if has_target {
                    expr_count(expr_tree(t, q))
                } else {
                    Sizes::none()
                },
                has_target ==> expr_end(self.shape(), q) == Some(q1),
                !has_target ==> q1 == q,
                tok(self.shape(), old(self).at(), TokenKind::LParenPipe) == Some(q),
            decreases self.toks().len() - self.at(),
        {
            reveal(arms_end);
            if self.at_end() {
                return Err(String::from_str("unexpected EOF in match"));
            }
            let before = self.pos;
            let ghost a0 = self.store();
            let arm = self.parse_match_arm()?;
            proof {
                let x = arms_tree(t, before as int)[0];
                lemma_grew2(old(self).store(), a0, self.store(), tc.plus(arms_count(va)), arms_count(seq![x]));
                lemma_place_arms_push(a0, self.store(), old(self).store().sizes().plus(tc), arms@, va, arm, x);
                if target is Some && self.store().indexable() {
                    assert(a0.indexable());
                    lemma_placed_expr_grow(a0, self.store(), old(self).store().sizes(), expr_tree(t, q));
                }
                assert(seq![x].drop_last() =~= Seq::<(Seq<PatternView>, ExprView)>::empty());
                assert(va.push(x).drop_last() =~= va);
                lemma_arms_count_push(Seq::empty(), x);
                assert(va.push(x).last() == x);
                assert(arms_count(va.push(x)) == arms_count(va).plus(expr_count(x.1)).plus(one_arm()));
                keep_arms(a0, self.store(), arms@, va);
                assert(va + arms_tree(t, before as int) =~= va.push(x) + arms_tree(t, self.at()));
                assert(self.holds_arms(arms@.push(arm), va.push(x))) by {
                    reveal(arms_are);
                    reveal(expr_is);
                    if self.store().indexable() {
                        assert forall|i: int| 0 <= i < va.push(x).len() implies {
                            &&& (#[trigger] arms@.push(arm)[i]).0 < self.store().match_arms@.len()
                            &&& pattern_views(
                                self.store().match_arms@[arms@.push(arm)[i].0 as int].patterns@,
                            ) == va.push(x)[i].0
                            &&& expr_is(
                                self.store(),
                                self.store().match_arms@[arms@.push(arm)[i].0 as int].result,
                                va.push(x)[i].1,
                            )
                        } by {
                            if i < va.len() {
                                assert(arms@.push(arm)[i] == arms@[i]);
                            } else {
                                assert(arms@.push(arm)[i] == arm);
                                assert(va.push(x)[i] == x);
                                assert(seq![arm][0] == arm);
                                assert(seq![x][0] == x);
                            }
                        }
                    }
                }
                va = va.push(x);
                if target is Some {
                    keep_expr(a0, self.store(), target->0, expr_tree(t, q));
                }
            }
            arms.push(arm);
            if self.pos <= before {
                return Err(String::from_str("stuck in match"));
            }
        }
        proof {
            assert(arms_tree(t, self.at()) == Seq::<(Seq<PatternView>, ExprView)>::empty()) by {
                reveal(arms_tree);
            }
            assert(va + Seq::<(Seq<PatternView>, ExprView)>::empty() =~= va);
        }
        self.expect(TokenKind::RPipeParen)?;
        let ghost a2 = self.store();
        let ghost tv = target;
        let ghost rv = arms@;
        let m = self.arena.alloc_match(MatchExpr { target, arms });
        proof {
            lemma_grew2(old(self).store(), a2, self.store(), tc.plus(arms_count(va)), one_match());
            if self.store().indexable() {
                assert(a2.indexable());
                lemma_placed_arms_grow(a2, self.store(), old(self).store().sizes().plus(tc), rv, va);
                if has_target {
                    lemma_placed_expr_grow(a2, self.store(), old(self).store().sizes(), expr_tree(t, q));
                }
            }
            keep_arms(a2, self.store(), rv, va);
            let tt = if has_target {
                Some(Box::new(expr_tree(t, q)))
            } else {
                None
            };
            if has_target {
                keep_expr(a2, self.store(), tv->0, expr_tree(t, q));
            }
            assert(match_tree(t, old(self).at()) == MatchView { target: tt, arms: va }) by {
                reveal(match_tree);
                reveal(expr_tree);
                reveal(arms_tree);
            }
            assert(self.holds_match(m, MatchView { target: tt, arms: va })) by {
                reveal(match_is);
                reveal(arms_are);
                reveal(expr_is);
            }
            assert(opt_count(tt) == tc);
            assert(self.store().indexable() ==> placed_match(self.store(), old(self).store().sizes(), MatchView { target: tt, arms: va })) by {
                reveal(placed_expr);
                reveal(placed_exprs);
                reveal(placed_inits);
                reveal(placed_block);
                reveal(placed_stmts);
                reveal(placed_statement);
                reveal(placed_match);
                reveal(placed_arms);
            }
        }
        Ok(m)
    }

    /// Reads a loop body `[| statement.. |]`.
    #[verifier::spinoff_prover]
    #[verifier::rlimit(80)]
    fn parse_loop_block(&mut self) -> (r: Result<BlockRef, String>)
        requires
            old(self).at() <= old(self).toks().len(),
        ensures
            final(self).follows(*old(self)),
            r is Ok ==> final(self).at() > old(self).at(),
            r is Ok ==> old(self).next_kind() == Some(TokenKind::LBracketPipe),
            r matches Ok(b) ==> final(self).has_block(b),
            agrees(r is Ok, loop_end(old(self).shape(), old(self).at()), final(self).at()),
            r matches Ok(b) ==> final(self).holds_block(b, loop_tree(old(self).toks(), old(self).at())),
            r matches Ok(b) ==> final(self).added(*old(self), block_count(loop_tree(old(self).toks(), old(self).at()))),
            r matches Ok(b) ==> (final(self).store().indexable() ==> placed_block(final(self).store(), old(self).store().sizes(), loop_tree(old(self).toks(), old(self).at()))),
            r matches Ok(b) ==> final(self).last_block(b),
        decreases old(self).toks().len() - old(self).at(), 0nat,
    {
        reveal(loop_end);
        reveal(stmts_end);
        reveal(statement_end);
        let ghost t = self.toks();
        self.expect(TokenKind::LBracketPipe)?;
        let ghost q = self.at();
        let mut srefs: Vec<StmtRef> = Vec::new();
        let ghost mut vs: Seq<StmtView> = Seq::empty();
        assert(stmts_are(self.store(), srefs@, vs)) by {
            reveal(stmts_are);
        }
        assert(vs + stmts_tree(t, q, TokenKind::RPipeBracket, false).stmts =~= stmts_tree(
            t,
            q,
            TokenKind::RPipeBracket,
            false,
        ).stmts);
        assert(grew(old(self).store(), self.store(), stmts_count(vs)));
        proof {
            lemma_place_empty(self.store(), old(self).store().sizes());
        }
        while !self.at_kind(TokenKind::RPipeBracket)
            invariant
                self.follows(*old(self)),
                self.at() > old(self).at(),
                self.store().indexable() ==> stmts_below(srefs@, self.store().sizes().stmts),
                loop_end(old(self).shape(), old(self).at()) == match stmts_end(
                    self.shape(),
                    self.at(),
                    TokenKind::RPipeBracket,
                ) {
                    Some(e) => tok(self.shape(), e, TokenKind::RPipeBracket),
                    None => None,
                },
                t == self.toks(),
                self.store().indexable() ==> stmts_are(self.store(), srefs@, vs),
                grew(old(self).store(), self.store(), stmts_count(vs)),
                self.store().indexable() ==> placed_stmts(self.store(), old(self).store().sizes(), srefs@, vs),
                self.store().indexable() ==> stmts_tree(t, q, TokenKind::RPipeBracket, false)
                    == (BlockView {
                    stmts: vs + stmts_tree(t, self.at(), TokenKind::RPipeBracket, false).stmts,
                    tail: stmts_tree(t, self.at(), TokenKind::RPipeBracket, false).tail,
                }),
            decreases self.toks().len() - self.at(),
        {
            reveal(loop_end);
            reveal(stmts_end);
            reveal(statement_end);
            if self.at_end() {
                return Err(String::from_str("unexpected EOF in loop"));
            }
            let before = self.pos;
            let ghost a0 = self.store();
            let st = self.parse_statement()?;
            let ghost x = statement_tree(t, before as int);
            let ghost stv = st;
            let ghost a1 = self.store();
            let sr = self.arena.alloc_stmt(st);
            proof {
                lemma_grew3(old(self).store(), a0, a1, self.store(), stmts_count(vs), statement_count(x), one_stmt());
                lemma_place_stmts_push(a0, a1, self.store(), old(self).store().sizes(), srefs@, vs, sr, stv, x);
                assert(vs.push(x).drop_last() =~= vs);
                keep_stmts(a0, self.store(), srefs@, vs);
                keep_statement(a1, self.store(), stv, x);
                if self.store().indexable() {
                    assert(stmt_is(self.store(), sr, x)) by {
                        reveal(stmt_is);
                    }
                    lemma_stmts_are_push(self.store(), srefs@, vs, sr, x);
                    lemma_stmts_step(t, before as int, self.at(), TokenKind::RPipeBracket, false);
                    assert(vs + stmts_tree(t, before as int, TokenKind::RPipeBracket, false).stmts
                        =~= vs.push(x) + stmts_tree(
                        t,
                        self.at(),
                        TokenKind::RPipeBracket,
                        false,
                    ).stmts);
                }
                vs = vs.push(x);
            }
            srefs.push(sr);
            if self.pos <= before {
                return Err(String::from_str("stuck in loop"));
            }
        }
        proof {
            lemma_stmts_end(t, self.at(), TokenKind::RPipeBracket, false);
            assert(vs + Seq::<StmtView>::empty() =~= vs);
        }
        self.expect(TokenKind::RPipeBracket)?;
        let ghost a2 = self.store();
        let ghost rv = srefs@;
        let b = self.arena.alloc_block(Block { stmts: srefs, tail: None });
        proof {
            lemma_grew2(old(self).store(), a2, self.store(), stmts_count(vs), one_block());
            if self.store().indexable() {
                assert(a2.indexable());
                lemma_placed_stmts_grow(a2, self.store(), old(self).store().sizes(), rv, vs);
                assert(placed_block(self.store(), old(self).store().sizes(), BlockView { stmts: vs, tail: None })) by {
                    reveal(placed_expr);
                    reveal(placed_exprs);
                    reveal(placed_inits);
                    reveal(placed_block);
                    reveal(placed_stmts);
                    reveal(placed_statement);
                    reveal(placed_match);
                    reveal(placed_arms);
                }
            }
            keep_stmts(a2, self.store(), rv, vs);
            assert(loop_tree(t, old(self).at()) == stmts_tree(t, q, TokenKind::RPipeBracket, false))
                by {
                reveal(loop_tree);
                reveal(stmts_tree);
            }
            assert(self.holds_block(b, BlockView { stmts: vs, tail: None })) by {
                reveal(block_is);
                reveal(stmts_are);
            }
        }
        Ok(b)
    }

    /// Reads an iteration `{| source [body] |}`.
    #[verifier::spinoff_prover]
    #[verifier::rlimit(80)]
    fn parse_iteration(&mut self) -> (r: Result<(ExprRef, BlockRef), String>)
        requires
            old(self).at() <= old(self).toks().len(),
        ensures
            final(self).follows(*old(self)),
            r is Ok ==> final(self).at() > old(self).at(),
            r is Ok ==> old(self).next_kind() == Some(TokenKind::LBracePipe),
            r matches Ok((e, b)) ==> final(self).has_expr(e) && final(self).has_block(b),
            agrees(r is Ok, iteration_end(old(self).shape(), old(self).at()), final(self).at()),
            r matches Ok((e, b)) ==> final(self).holds_expr(
                e,
                iteration_tree(old(self).toks(), old(self).at()).0,
            ) && final(self).holds_block(b, iteration_tree(old(self).toks(), old(self).at()).1),
            r matches Ok((e, b)) ==> final(self).last_block(b),
            r matches Ok((e, b)) ==> (final(self).store().indexable() ==> {
                let it = iteration_tree(old(self).toks(), old(self).at());
                &&& e.0 == expr_slot(old(self).store().sizes(), it.0)
                &&& placed_expr(final(self).store(), old(self).store().sizes(), it.0)
                &&& placed_block(final(self).store(), old(self).store().sizes().plus(expr_count(it.0)), it.1)
            }),
            r is Ok ==> final(self).added(
                *old(self),
                expr_count(iteration_tree(old(self).toks(), old(self).at()).0).plus(
                    block_count(iteration_tree(old(self).toks(), old(self).at()).1),
                ),
            ),
        decreases old(self).toks().len() - old(self).at(), 0nat,
    {
        reveal(iteration_end);
        reveal(expr_end);
        reveal(block_end);
        self.expect(TokenKind::LBracePipe)?;
        let ghost q = self.at();
        let source = self.parse_expr()?;
        let ghost q1 = self.at();
        let ghost a1 = self.store();
        let body = self.parse_block()?;
        self.expect(TokenKind::RPipeBrace)?;
        proof {
            lemma_grew2(old(self).store(), a1, self.store(), expr_count(expr_tree(self.toks(), q)), block_count(block_tree(self.toks(), q1)));
            if self.store().indexable() {
                assert(a1.indexable());
                lemma_placed_expr_grow(a1, self.store(), old(self).store().sizes(), expr_tree(self.toks(), q));
            }
            keep_expr(a1, self.store(), source, expr_tree(self.toks(), q));
            assert(iteration_tree(self.toks(), old(self).at()) == (
                expr_tree(self.toks(), q),
                block_tree(self.toks(), q1),
            )) by {
                reveal(iteration_tree);
                reveal(expr_tree);
                reveal(block_tree);
            }
        }
        Ok((source, body))
    }

    /// Reads a block `[ statement.. tail? ]`; a last statement that is a bare
    /// expression becomes the tail.
    #[verifier::spinoff_prover]
    #[verifier::rlimit(80)]
    fn parse_block(&mut self) -> (r: Result<BlockRef, String>)
        requires
            old(self).at() <= old(self).toks().len(),
        ensures
            final(self).follows(*old(self)),
            r is Ok ==> final(self).at() > old(self).at(),
            r is Ok ==> old(self).next_kind() == Some(TokenKind::LBracket),
            r matches Ok(b) ==> final(self).has_block(b),
            agrees(r is Ok, block_end(old(self).shape(), old(self).at()), final(self).at()),
            r matches Ok(b) ==> final(self).holds_block(b, block_tree(old(self).toks(), old(self).at())),
            r matches Ok(b) ==> final(self).added(*old(self), block_count(block_tree(old(self).toks(), old(self).at()))),
            r matches Ok(b) ==> (final(self).store().indexable() ==> placed_block(final(self).store(), old(self).store().sizes(), block_tree(old(self).toks(), old(self).at()))),
            r matches Ok(b) ==> final(self).last_block(b),
        decreases old(self).toks().len() - old(self).at(), 0nat,
    {
        reveal(block_end);
        reveal(stmts_end);
        reveal(statement_end);
        let ghost t = self.toks();
        self.expect(TokenKind::LBracket)?;
        let ghost q = self.at();
        let mut srefs: Vec<StmtRef> = Vec::new();
        let mut tail: Option<ExprRef> = None;
        let ghost mut vs: Seq<StmtView> = Seq::empty();
        let ghost mut tv: Option<Box<ExprView>> = None;
        assert(stmts_are(self.store(), srefs@, vs)) by {
            reveal(stmts_are);
        }
        assert(vs + stmts_tree(t, q, TokenKind::RBracket, true).stmts =~= stmts_tree(
            t,
            q,
            TokenKind::RBracket,
            true,
        ).stmts);
        assert(grew(old(self).store(), self.store(), stmts_count(vs).plus(Sizes::none())));
        proof {
            lemma_place_empty(self.store(), old(self).store().sizes());
        }
        while !self.at_kind(TokenKind::RBracket)
            invariant_except_break
                tail is None,
                self.store().indexable() ==> stmts_tree(t, q, TokenKind::RBracket, true)
                    == (BlockView {
                    stmts: vs + stmts_tree(t, self.at(), TokenKind::RBracket, true).stmts,
                    tail: stmts_tree(t, self.at(), TokenKind::RBracket, true).tail,
                }),
            invariant
                self.follows(*old(self)),
                self.at() > old(self).at(),
                self.store().indexable() ==> stmts_below(srefs@, self.store().sizes().stmts),
                tail matches Some(t) ==> self.has_expr(t),
                block_end(old(self).shape(), old(self).at()) == match stmts_end(
                    self.shape(),
                    self.at(),
                    TokenKind::RBracket,
                ) {
                    Some(e) => tok(self.shape(), e, TokenKind::RBracket),
                    None => None,
                },
                t == self.toks(),
                self.store().indexable() ==> stmts_are(self.store(), srefs@, vs),
                (tail is Some) == (tv is Some),
                tail matches Some(e) ==> self.holds_expr(e, *(tv->0)),
                grew(old(self).store(), self.store(), stmts_count(vs).plus(match tv { Some(x) => expr_count(*x), None => Sizes::none() })),
                self.store().indexable() ==> placed_stmts(self.store(), old(self).store().sizes(), srefs@, vs),
                tail matches Some(e) ==> (self.store().indexable() ==> e.0 == expr_slot(old(self).store().sizes().plus(stmts_count(vs)), *(tv->0)) && placed_expr(self.store(), old(self).store().sizes().plus(stmts_count(vs)), *(tv->0))),
            ensures
                self.next_kind() == Some(TokenKind::RBracket),
                self.store().indexable() ==> stmts_tree(t, q, TokenKind::RBracket, true) == if tail
                    is Some {
                    BlockView { stmts: vs, tail: tv }
                } else {
                    BlockView {
                        stmts: vs + stmts_tree(t, self.at(), TokenKind::RBracket, true).stmts,
                        tail: stmts_tree(t, self.at(), TokenKind::RBracket, true).tail,
                    }
                },
            decreases self.toks().len() - self.at(),
        {
            reveal(block_end);
            reveal(stmts_end);
            reveal(statement_end);
            if self.at_end() {
                return Err(String::from_str("unexpected EOF in block"));
            }
            let before = self.pos;
            let ghost a0 = self.store();
            let st = self.parse_statement()?;
            let ghost x = statement_tree(t, before as int);
            let ghost stv = st;
            let ghost a1 = self.store();
            if self.at_kind(TokenKind::RBracket) {
                match st {
                    Statement::Expr(e) => {
                        proof {
                            keep_stmts(a0, self.store(), srefs@, vs);
                            let xe = match x {
                                StmtView::Expr(y) => y,
                                _ => arbitrary(),
                            };
                            if self.store().indexable() {
                                assert(x == StmtView::Expr(xe) && expr_is(self.store(), e, xe)) by {
                                    reveal(statement_is);
                                    reveal(expr_is);
                                }
                                lemma_grew2(old(self).store(), a0, self.store(), stmts_count(vs).plus(Sizes::none()), statement_count(x));
                                assert(a0.indexable());
                                lemma_placed_stmts_grow(a0, self.store(), old(self).store().sizes(), srefs@, vs);
                                assert(a0.sizes() == old(self).store().sizes().plus(stmts_count(vs)));
                                assert(e.0 == expr_slot(a0.sizes(), xe) && placed_expr(self.store(), a0.sizes(), xe)) by {
                                    reveal(placed_expr);
                                    reveal(placed_exprs);
                                    reveal(placed_inits);
                                    reveal(placed_block);
                                    reveal(placed_stmts);
                                    reveal(placed_statement);
                                    reveal(placed_match);
                                    reveal(placed_arms);
                                }
                                lemma_stmts_tail(t, before as int, self.at(), TokenKind::RBracket, xe);
                                assert(vs + Seq::<StmtView>::empty() =~= vs);
                            }
                            tv = Some(Box::new(xe));
                        }
                        tail = Some(e);
                        break;
                    },
                    other => {
                        let sr = self.arena.alloc_stmt(other);
                        proof {
                            lemma_grew3(old(self).store(), a0, a1, self.store(), stmts_count(vs).plus(Sizes::none()), statement_count(x), one_stmt());
                    lemma_place_stmts_push(a0, a1, self.store(), old(self).store().sizes(), srefs@, vs, sr, stv, x);
                            lemma_place_stmts_push(a0, a1, self.store(), old(self).store().sizes(), srefs@, vs, sr, stv, x);
                            assert(vs.push(x).drop_last() =~= vs);
                            keep_stmts(a0, self.store(), srefs@, vs);
                            keep_statement(a1, self.store(), stv, x);
                            if self.store().indexable() {
                                assert(stmt_is(self.store(), sr, x) && !(x is Expr)) by {
                                    reveal(stmt_is);
                                    reveal(statement_is);
                                }
                                lemma_stmts_are_push(self.store(), srefs@, vs, sr, x);
                                lemma_stmts_step(t, before as int, self.at(), TokenKind::RBracket, true);
                                assert(vs + stmts_tree(t, before as int, TokenKind::RBracket, true).stmts
                                    =~= vs.push(x) + stmts_tree(
                                    t,
                                    self.at(),
                                    TokenKind::RBracket,
                                    true,
                                ).stmts);
                            }
                            vs = vs.push(x);
                        }
                        srefs.push(sr);
                    },
                }
            } else {
                let sr = self.arena.alloc_stmt(st);
                proof {
                    lemma_grew3(old(self).store(), a0, a1, self.store(), stmts_count(vs).plus(Sizes::none()), statement_count(x), one_stmt());
                    lemma_place_stmts_push(a0, a1, self.store(), old(self).store().sizes(), srefs@, vs, sr, stv, x);
                    assert(vs.push(x).drop_last() =~= vs);
                    keep_stmts(a0, self.store(), srefs@, vs);
                    keep_statement(a1, self.store(), stv, x);
                    if self.store().indexable() {
                        assert(stmt_is(self.store(), sr, x)) by {
                            reveal(stmt_is);
                            reveal(statement_is);
                        }
                        lemma_stmts_are_push(self.store(), srefs@, vs, sr, x);
                        lemma_stmts_step(t, before as int, self.at(), TokenKind::RBracket, true);
                        assert(vs + stmts_tree(t, before as int, TokenKind::RBracket, true).stmts
                            =~= vs.push(x) + stmts_tree(
                            t,
                            self.at(),
                            TokenKind::RBracket,
                            true,
                        ).stmts);
                    }
                    vs = vs.push(x);
                }
                srefs.push(sr);
            }
            if self.pos <= before {
                return Err(String::from_str("stuck in block"));
            }
        }
        proof {
            if tail is None && self.store().indexable() {
                lemma_stmts_end(t, self.at(), TokenKind::RBracket, true);
                assert(vs + Seq::<StmtView>::empty() =~= vs);
            }
        }
        self.expect(TokenKind::RBracket)?;
        let ghost a2 = self.store();
        let ghost rv = srefs@;
        let ghost tl = tail;
        let b = self.arena.alloc_block(Block { stmts: srefs, tail });
        proof {
            lemma_grew2(old(self).store(), a2, self.store(), stmts_count(vs).plus(match tv { Some(x) => expr_count(*x), None => Sizes::none() }), one_block());
            if self.store().indexable() {
                assert(a2.indexable());
                lemma_placed_stmts_grow(a2, self.store(), old(self).store().sizes(), rv, vs);
                if tl is Some {
                    lemma_placed_expr_grow(a2, self.store(), old(self).store().sizes().plus(stmts_count(vs)), *(tv->0));
                }
                assert(placed_block(self.store(), old(self).store().sizes(), BlockView { stmts: vs, tail: tv })) by {
                    reveal(placed_expr);
                    reveal(placed_exprs);
                    reveal(placed_inits);
                    reveal(placed_block);
                    reveal(placed_stmts);
                    reveal(placed_statement);
                    reveal(placed_match);
                    reveal(placed_arms);
                }
            }
            keep_stmts(a2, self.store(), rv, vs);
            if tl is Some {
                keep_expr(a2, self.store(), tl->0, *(tv->0));
            }
            assert(block_tree(t, old(self).at()) == stmts_tree(t, q, TokenKind::RBracket, true)) by {
                reveal(block_tree);
                reveal(stmts_tree);
            }
            assert(self.holds_block(b, BlockView { stmts: vs, tail: tv })) by {
                reveal(block_is);
                reveal(stmts_are);
                reveal(expr_is);
            }
        }
        Ok(b)
    }

    /// Reads a statement; which kind is decided by the next token. After `@Name`, an
    /// operator or `.` or `?` makes the whole an expression statement, read again from
    /// the `@`.
    #[verifier::spinoff_prover]
    #[verifier::rlimit(80)]
    fn parse_statement(&mut self) -> (r: Result<Statement, String>)
        requires
            old(self).at() <= old(self).toks().len(),
        ensures
            final(self).follows(*old(self)),
            r is Ok ==> final(self).at() > old(self).at(),
            r matches Ok(st) ==> (final(self).store().indexable() ==> st.refs_ok(
                final(self).store().sizes(),
            )),
            r matches Ok(Statement::EarlyReturn(_)) ==> old(self).next_kind() == Some(
                TokenKind::Caret,
            ),
            r matches Ok(Statement::Loop(_)) ==> old(self).next_kind() == Some(
                TokenKind::LBracketPipe,
            ),
            r matches Ok(Statement::Iteration { .. }) ==> old(self).next_kind() == Some(
                TokenKind::LBracePipe,
            ),
            r matches Ok(Statement::LocalTypeDecl { .. }) ==> old(self).next_kind() == Some(
                TokenKind::LParen,
            ),
            r matches Ok(Statement::Mutation { .. }) ==> old(self).next_kind() == Some(
                TokenKind::Tilde,
            ),
            r matches Ok(Statement::Instance { .. }) ==> old(self).next_kind() == Some(
                TokenKind::Tilde,
            ) || old(self).next_kind() == Some(TokenKind::At),
            agrees(r is Ok, statement_end(old(self).shape(), old(self).at()), final(self).at()),
            r matches Ok(Statement::LocalTypeDecl { name, typ, .. }) ==> name.0@ == old(
                self,
            ).second_text() && typ.view_type() == old(self).type_from(old(self).pos2()),
            r matches Ok(Statement::Mutation { name, method, .. }) ==> name.0@ == old(self).text_at(
                old(self).pos2(),
            ) && method.0@ == old(self).text_at(after(old(self).shape(), old(self).pos3())),
            r matches Ok(Statement::Instance { name, .. }) ==> name.0@ == if old(self).next_kind()
                == Some(TokenKind::Tilde) {
                old(self).text_at(old(self).pos2())
            } else {
                old(self).second_text()
            },
            r matches Ok(st) ==> final(self).holds_statement(
                st,
                statement_tree(old(self).toks(), old(self).at()),
            ),
            r is Ok ==> final(self).added(
                *old(self),
                statement_count(statement_tree(old(self).toks(), old(self).at())),
            ),
            r matches Ok(st) ==> final(self).last_of_statement(st),
            r matches Ok(st) ==> (final(self).store().indexable() ==> placed_statement(final(self).store(), old(self).store().sizes(), st, statement_tree(old(self).toks(), old(self).at()))),
        decreases old(self).toks().len() - old(self).at(), 10nat,
    {
        reveal(statement_end);
        reveal(expr_end);
        reveal(loop_end);
        reveal(iteration_end);
        reveal(args_end);
        let ghost t = self.toks();
        let ghost p = self.at();
        match self.peek_kind() {
            Some(TokenKind::Caret) => {
                self.advance();
                let e = self.parse_expr()?;
                let st = Statement::EarlyReturn(e);
                assert(self.holds_statement(st, statement_tree(t, p)) && self.added(*old(self), statement_count(statement_tree(t, p)))) by {
                    reveal(statement_tree);
                    reveal(expr_tree);
                    reveal(statement_is);
                    reveal(expr_is);
                }
                assert(self.store().indexable() ==> placed_statement(self.store(), old(self).store().sizes(), st, statement_tree(t, p))) by {
                    reveal(statement_tree);
                    reveal(expr_tree);
                    reveal(loop_tree);
                    reveal(iteration_tree);
                    reveal(args_tree);
                    reveal(placed_expr);
                    reveal(placed_exprs);
                    reveal(placed_inits);
                    reveal(placed_block);
                    reveal(placed_stmts);
                    reveal(placed_statement);
                    reveal(placed_match);
                    reveal(placed_arms);
                }
                Ok(st)
            },
            Some(TokenKind::LBracketPipe) => {
                let b = self.parse_loop_block()?;
                let st = Statement::Loop(b);
                assert(self.holds_statement(st, statement_tree(t, p)) && self.added(*old(self), statement_count(statement_tree(t, p)))) by {
                    reveal(statement_tree);
                    reveal(loop_tree);
                    reveal(statement_is);
                    reveal(block_is);
                }
                assert(self.store().indexable() ==> placed_statement(self.store(), old(self).store().sizes(), st, statement_tree(t, p))) by {
                    reveal(statement_tree);
                    reveal(expr_tree);
                    reveal(loop_tree);
                    reveal(iteration_tree);
                    reveal(args_tree);
                    reveal(placed_expr);
                    reveal(placed_exprs);
                    reveal(placed_inits);
                    reveal(placed_block);
                    reveal(placed_stmts);
                    reveal(placed_statement);
                    reveal(placed_match);
                    reveal(placed_arms);
                }
                Ok(st)
            },
            Some(TokenKind::LBracePipe) => {
                let (s, b) = self.parse_iteration()?;
                let st = Statement::Iteration { source: s, body: b };
                assert(self.holds_statement(st, statement_tree(t, p)) && self.added(*old(self), statement_count(statement_tree(t, p)))) by {
                    reveal(statement_tree);
                    reveal(iteration_tree);
                    reveal(statement_is);
                    reveal(expr_is);
                    reveal(block_is);
                }
                assert(self.store().indexable() ==> placed_statement(self.store(), old(self).store().sizes(), st, statement_tree(t, p))) by {
                    reveal(statement_tree);
                    reveal(expr_tree);
                    reveal(loop_tree);
                    reveal(iteration_tree);
                    reveal(args_tree);
                    reveal(placed_expr);
                    reveal(placed_exprs);
                    reveal(placed_inits);
                    reveal(placed_block);
                    reveal(placed_stmts);
                    reveal(placed_statement);
                    reveal(placed_match);
                    reveal(placed_arms);
                }
                Ok(st)
            },
            Some(TokenKind::LParen) => {
                let start = self.span_here().start;
                self.expect(TokenKind::LParen)?;
                let name = self.expect_pascal()?;
                let typ = self.parse_type_expr()?;
                self.expect(TokenKind::RParen)?;
                let st = Statement::LocalTypeDecl { name, typ, span: self.span_from(start) };
                assert(self.holds_statement(st, statement_tree(t, p)) && self.added(*old(self), statement_count(statement_tree(t, p)))) by {
                    reveal(statement_tree);
                    reveal(statement_is);
                }
                assert(self.store().indexable() ==> placed_statement(self.store(), old(self).store().sizes(), st, statement_tree(t, p))) by {
                    reveal(statement_tree);
                    reveal(expr_tree);
                    reveal(loop_tree);
                    reveal(iteration_tree);
                    reveal(args_tree);
                    reveal(placed_expr);
                    reveal(placed_exprs);
                    reveal(placed_inits);
                    reveal(placed_block);
                    reveal(placed_stmts);
                    reveal(placed_statement);
                    reveal(placed_match);
                    reveal(placed_arms);
                }
                Ok(st)
            },
            Some(TokenKind::Tilde) => {
                self.advance();
                self.expect(TokenKind::At)?;
                let name = self.expect_pascal()?;
                if self.at_kind(TokenKind::Dot) {
                    self.advance();
                    let method = self.expect_camel()?;
                    self.expect(TokenKind::LParen)?;
                    let args = self.parse_args()?;
                    self.expect(TokenKind::RParen)?;
                    let st = Statement::Mutation { name, method, args, span: self.span_here() };
                    assert(self.holds_statement(st, statement_tree(t, p)) && self.added(*old(self), statement_count(statement_tree(t, p)))) by {
                        reveal(statement_tree);
                        reveal(args_tree);
                        reveal(statement_is);
                        reveal(exprs_are);
                    }
                    assert(self.store().indexable() ==> placed_statement(self.store(), old(self).store().sizes(), st, statement_tree(t, p))) by {
                        reveal(statement_tree);
                        reveal(expr_tree);
                        reveal(loop_tree);
                        reveal(iteration_tree);
                        reveal(args_tree);
                        reveal(placed_expr);
                        reveal(placed_exprs);
                        reveal(placed_inits);
                        reveal(placed_block);
                        reveal(placed_stmts);
                        reveal(placed_statement);
                        reveal(placed_match);
                        reveal(placed_arms);
                    }
                    Ok(st)
                } else {
                    let v = self.parse_expr()?;
                    let st = Statement::Instance {
                        name,
                        type_annotation: None,
                        value: v,
                        span: self.span_here(),
                    };
                    assert(self.holds_statement(st, statement_tree(t, p)) && self.added(*old(self), statement_count(statement_tree(t, p)))) by {
                        reveal(statement_tree);
                        reveal(expr_tree);
                        reveal(statement_is);
                        reveal(expr_is);
                    }
                    assert(self.store().indexable() ==> placed_statement(self.store(), old(self).store().sizes(), st, statement_tree(t, p))) by {
                        reveal(statement_tree);
                        reveal(expr_tree);
                        reveal(loop_tree);
                        reveal(iteration_tree);
                        reveal(args_tree);
                        reveal(placed_expr);
                        reveal(placed_exprs);
                        reveal(placed_inits);
                        reveal(placed_block);
                        reveal(placed_stmts);
                        reveal(placed_statement);
                        reveal(placed_match);
                        reveal(placed_arms);
                    }
                    Ok(st)
                }
            },
            Some(TokenKind::At) => {
                let saved = self.pos;
                self.advance();
                let name = self.expect_pascal()?;
                match self.peek_kind() {
                    Some(TokenKind::Dot) | Some(TokenKind::Question) | Some(TokenKind::Plus) | Some(
                        TokenKind::Minus,
                    ) | Some(TokenKind::Star) | Some(TokenKind::Percent) | Some(
                        TokenKind::DoubleEquals,
                    ) | Some(TokenKind::NotEqual) | Some(TokenKind::LessThan) | Some(
                        TokenKind::GreaterThan,
                    ) | Some(TokenKind::LessThanOrEqual) | Some(TokenKind::GreaterThanOrEqual)
                    | Some(TokenKind::LogicalAnd) | Some(TokenKind::LogicalOr) => {
                        self.pos = saved;
                        let e = self.parse_expr()?;
                        let st = Statement::Expr(e);
                        assert(self.holds_statement(st, statement_tree(t, p)) && self.added(*old(self), statement_count(statement_tree(t, p)))) by {
                            reveal(statement_tree);
                            reveal(expr_tree);
                            reveal(statement_is);
                            reveal(expr_is);
                        }
                        assert(self.store().indexable() ==> placed_statement(self.store(), old(self).store().sizes(), st, statement_tree(t, p))) by {
                            reveal(statement_tree);
                            reveal(expr_tree);
                            reveal(loop_tree);
                            reveal(iteration_tree);
                            reveal(args_tree);
                            reveal(placed_expr);
                            reveal(placed_exprs);
                            reveal(placed_inits);
                            reveal(placed_block);
                            reveal(placed_stmts);
                            reveal(placed_statement);
                            reveal(placed_match);
                            reveal(placed_arms);
                        }
                        return Ok(st);
                    },
                    _ => {},
                }
                let mut ta: Option<TypeExpr> = None;
                if self.at_kind(TokenKind::LParen) {
                    let s = self.pos;
                    self.expect(TokenKind::LParen)?;
                    match self.parse_type_expr() {
                        Ok(t) => {
                            if self.at_kind(TokenKind::RParen) {
                                self.expect(TokenKind::RParen)?;
                                ta = Some(t);
                            } else {
                                self.pos = s;
                            }
                        },
                        Err(_) => {
                            self.pos = s;
                        },
                    }
                }
                let v = self.parse_expr()?;
                let st = Statement::Instance {
                    name,
                    type_annotation: ta,
                    value: v,
                    span: self.span_here(),
                };
                assert(self.holds_statement(st, statement_tree(t, p)) && self.added(*old(self), statement_count(statement_tree(t, p)))) by {
                    reveal(statement_tree);
                    reveal(expr_tree);
                    reveal(statement_is);
                    reveal(expr_is);
                }
                assert(self.store().indexable() ==> placed_statement(self.store(), old(self).store().sizes(), st, statement_tree(t, p))) by {
                    reveal(statement_tree);
                    reveal(expr_tree);
                    reveal(loop_tree);
                    reveal(iteration_tree);
                    reveal(args_tree);
                    reveal(placed_expr);
                    reveal(placed_exprs);
                    reveal(placed_inits);
                    reveal(placed_block);
                    reveal(placed_stmts);
                    reveal(placed_statement);
                    reveal(placed_match);
                    reveal(placed_arms);
                }
                Ok(st)
            },
            _ => {
                let e = self.parse_expr()?;
                let st = Statement::Expr(e);
                assert(self.holds_statement(st, statement_tree(t, p)) && self.added(*old(self), statement_count(statement_tree(t, p)))) by {
                    reveal(statement_tree);
                    reveal(expr_tree);
                    reveal(statement_is);
                    reveal(expr_is);
                }
                assert(self.store().indexable() ==> placed_statement(self.store(), old(self).store().sizes(), st, statement_tree(t, p))) by {
                    reveal(statement_tree);
                    reveal(expr_tree);
                    reveal(loop_tree);
                    reveal(iteration_tree);
                    reveal(args_tree);
                    reveal(placed_expr);
                    reveal(placed_exprs);
                    reveal(placed_inits);
                    reveal(placed_block);
                    reveal(placed_stmts);
                    reveal(placed_statement);
                    reveal(placed_match);
                    reveal(placed_arms);
                }
                Ok(st)
            },
        }
    }

    /// Reads a struct member: `(Name Type)` or a bare `Name`.
    fn parse_struct_child(&mut self) -> (r: Result<StructChild, String>)
        requires
            old(self).at() <= old(self).toks().len(),
        ensures
            final(self).toks() == old(self).toks(),
            final(self).store() == old(self).store(),
            old(self).at() <= final(self).at() <= final(self).toks().len(),
            r is Ok ==> final(self).at() > old(self).at(),
            r matches Ok(StructChild::TypedField { .. }) ==> old(self).next_kind() == Some(
                TokenKind::LParen,
            ),
            r matches Ok(StructChild::SelfTypedField { name, .. }) ==> old(self).next_kind()
                == Some(TokenKind::PascalIdent) && name.0@ == old(self).next_tok().spec_ident(),
            !(r matches Ok(StructChild::NestedEnum(_))),
            !(r matches Ok(StructChild::NestedStruct(_))),
            !(old(self).next_kind() == Some(TokenKind::LParen) || old(self).next_kind() == Some(
                TokenKind::PascalIdent,
            )) ==> r is Err,
            agrees(r is Ok, struct_child_end(old(self).shape(), old(self).at()), final(self).at()),
            r matches Ok(c) ==> c.member_view() == member_tree(old(self).toks(), old(self).at()),
            r matches Ok(StructChild::TypedField { name, typ, .. }) ==> name.0@ == old(
                self,
            ).second_text() && typ.view_type() == old(self).type_from(old(self).pos2()),
    {
        let start = self.span_here().start;
        match self.peek_kind() {
            Some(TokenKind::LParen) => {
                self.expect(TokenKind::LParen)?;
                let name = self.expect_pascal()?;
                let typ = self.parse_type_expr()?;
                self.expect(TokenKind::RParen)?;
                Ok(StructChild::TypedField { name, typ, span: self.span_from(start) })
            },
            Some(TokenKind::PascalIdent) => {
                let name = self.expect_pascal()?;
                Ok(StructChild::SelfTypedField { name, span: self.span_from(start) })
            },
            _ => Err(unexpected_found("struct field", self.peek_tok())),
        }
    }

    /// The field of a struct variant that a struct member gives; a bare `Name` member is
    /// typed by its own name.
    fn field_of(c: &StructChild) -> (f: StructField)
        requires
            c is TypedField || c is SelfTypedField,
        ensures
            f.field_view() == field_of_member(c.member_view()),
    {
        match c {
            StructChild::TypedField { name, typ, span } => StructField {
                name: name.duplicate(),
                typ: typ.duplicate(),
                span: *span,
            },
            StructChild::SelfTypedField { name, span } => StructField {
                name: name.duplicate(),
                typ: TypeExpr::Simple(name.duplicate()),
                span: *span,
            },
            _ => {
                proof {
                    assert(false);
                }
                StructField {
                    name: Name::new(""),
                    typ: TypeExpr::Simple(Name::new("")),
                    span: Span { start: 0, end: 0 },
                }
            },
        }
    }

    /// Reads a struct definition `{Name member..}`; its members go to the arena, and the
    /// fields they make for a struct variant are returned beside it.
    #[verifier::spinoff_prover]
    #[verifier::rlimit(80)]
    fn parse_struct_def(&mut self) -> (r: Result<(StructDef, Vec<StructField>), String>)
        requires
            old(self).at() <= old(self).toks().len(),
        ensures
            final(self).follows(*old(self)),
            r is Ok ==> final(self).at() > old(self).at(),
            r is Ok ==> old(self).next_kind() == Some(TokenKind::LBrace),
            r matches Ok((d, fields)) ==> (final(self).store().indexable() ==> d.refs_ok(
                final(self).store().sizes(),
            )) && fields@.len() == d.children@.len(),
            agrees(r is Ok, struct_end(old(self).shape(), old(self).at()), final(self).at()),
            r matches Ok((d, _)) ==> d.name.0@ == old(self).second_text()
                && d.children@.len() == struct_items_count(old(self).shape(), old(self).pos2()),
            r matches Ok((d, fields)) ==> {
                let ms = members_from(old(self).toks(), old(self).pos2());
                &&& ms.len() == d.children@.len()
                &&& field_views(fields@) == fields_of_members(ms)
                &&& final(self).store().indexable() ==> forall|k: int|
                    0 <= k < ms.len() ==> final(self).store().struct_children@[d.children@[k].0 as int].member_view()
                        == #[trigger] ms[k]
            },
            r is Ok ==> final(self).added(*old(self), struct_children_n(struct_items_count(old(self).shape(), old(self).pos2()))),
            r matches Ok((d, _)) ==> (final(self).store().indexable() ==> forall|k: int| 0 <= k < d.children@.len() ==> #[trigger] d.children@[k].0 == old(self).store().sizes().struct_children + k),
            r matches Ok((d, _)) ==> d.span == span_through(
                old(self).toks(),
                old(self).at(),
                final(self).at(),
            ),
    {
        let start = self.span_here().start;
        self.expect(TokenKind::LBrace)?;
        let name = self.expect_pascal()?;
        let mut refs: Vec<StructChildRef> = Vec::new();
        let mut fields: Vec<StructField> = Vec::new();
        let ghost mut done: Seq<MemberView> = Seq::empty();
        proof {
            assert(members_from(self.toks(), self.at()) =~= done + members_from(
                self.toks(),
                self.at(),
            ));
            assert(field_views(fields@) =~= fields_of_members(done));
        }
        assert(grew(old(self).store(), self.store(), struct_children_n(refs@.len())));
        while !self.at_kind(TokenKind::RBrace)
            invariant
                self.follows(*old(self)),
                self.at() > old(self).at(),
                self.store().indexable() ==> struct_children_below(
                    refs@,
                    self.store().sizes().struct_children,
                ),
                fields@.len() == refs@.len(),
                grew(old(self).store(), self.store(), struct_children_n(refs@.len())),
                self.store().indexable() ==> forall|k: int| 0 <= k < refs@.len() ==> #[trigger] refs@[k].0 == old(self).store().sizes().struct_children + k,
                refs@.len() + struct_items_count(self.shape(), self.at()) == struct_items_count(
                    old(self).shape(),
                    old(self).pos2(),
                ),
                members_from(old(self).toks(), old(self).pos2()) == done + members_from(
                    self.toks(),
                    self.at(),
                ),
                done.len() == refs@.len(),
                field_views(fields@) == fields_of_members(done),
                self.store().indexable() ==> forall|k: int|
                    0 <= k < done.len() ==> self.store().struct_children@[refs@[k].0 as int].member_view()
                        == #[trigger] done[k],
                struct_end(old(self).shape(), old(self).at()) == match struct_items_end(
                    self.shape(),
                    self.at(),
                ) {
                    Some(e) => tok(self.shape(), e, TokenKind::RBrace),
                    None => None,
                },
            decreases self.toks().len() - self.at(),
        {
            if self.at_end() {
                return Err(String::from_str("unexpected EOF in struct"));
            }
            let before = self.pos;
            let ghost at0 = self.at();
            let c = self.parse_struct_child()?;
            let ghost m = c.member_view();
            let f = Self::field_of(&c);
            let ghost old_fields = fields@;
            let ghost a0 = self.store();
            let cr = self.arena.alloc_struct_child(c);
            proof {
                lemma_grew2(old(self).store(), a0, self.store(), struct_children_n(refs@.len()), struct_children_n(1));
                assert(struct_children_n(refs@.len()).plus(struct_children_n(1)) == struct_children_n(refs@.len() + 1));
                if self.store().indexable() {
                    assert(a0.indexable());
                    assert forall|k: int| 0 <= k < refs@.push(cr).len() implies #[trigger] refs@.push(cr)[k].0 == old(self).store().sizes().struct_children + k by {
                        if k < refs@.len() {
                            assert(refs@.push(cr)[k] == refs@[k]);
                        }
                    }
                }
            }
            refs.push(cr);
            fields.push(f);
            if self.pos <= before {
                return Err(String::from_str("stuck in struct"));
            }
            proof {
                let next = done.push(m);
                assert(members_from(self.toks(), at0) == seq![m] + members_from(
                    self.toks(),
                    self.at(),
                ));
                assert(done + (seq![m] + members_from(self.toks(), self.at())) =~= next
                    + members_from(self.toks(), self.at()));
                assert(fields_of_members(next) =~= fields_of_members(done).push(
                    field_of_member(m),
                ));
                assert(field_views(fields@) =~= field_views(old_fields).push(f.field_view()));
                done = next;
            }
        }
        self.expect(TokenKind::RBrace)?;
        Ok((StructDef { name, children: refs, span: self.span_from(start) }, fields))
    }

    /// Reads an enum member: `(Name)`, `(Name Type)`, a struct variant `{Name ..}` or a
    /// bare `Name`.
    #[verifier::spinoff_prover]
    #[verifier::rlimit(80)]
    fn parse_enum_variant(&mut self) -> (r: Result<EnumChild, String>)
        requires
            old(self).at() <= old(self).toks().len(),
        ensures
            final(self).follows(*old(self)),
            r is Ok ==> final(self).at() > old(self).at(),
            r matches Ok(c) ==> (final(self).store().indexable() ==> c.refs_ok(
                final(self).store().sizes(),
            )),
            r matches Ok(EnumChild::Variant { .. }) ==> old(self).next_kind() == Some(
                TokenKind::LParen,
            ) || old(self).next_kind() == Some(TokenKind::PascalIdent),
            r matches Ok(EnumChild::DataVariant { .. }) ==> old(self).next_kind() == Some(
                TokenKind::LParen,
            ),
            r matches Ok(EnumChild::StructVariant { .. }) ==> old(self).next_kind() == Some(
                TokenKind::LBrace,
            ),
            !(r matches Ok(EnumChild::NestedEnum(_))),
            !(r matches Ok(EnumChild::NestedStruct(_))),
            !(old(self).next_kind() == Some(TokenKind::LParen) || old(self).next_kind() == Some(
                TokenKind::LBrace,
            ) || old(self).next_kind() == Some(TokenKind::PascalIdent)) ==> r is Err,
            agrees(r is Ok, variant_end(old(self).shape(), old(self).at()), final(self).at()),
            r matches Ok(c) ==> c.variant_view() == variant_tree(old(self).toks(), old(self).at()),
            r is Ok ==> final(self).added(*old(self), struct_children_n(variant_members(variant_tree(old(self).toks(), old(self).at())))),
            r matches Ok(EnumChild::Variant { name, .. }) ==> name.0@ == if old(self).next_kind()
                == Some(TokenKind::LParen) {
                old(self).second_text()
            } else {
                old(self).text_at(old(self).at())
            },
            r matches Ok(EnumChild::DataVariant { name, payload, .. }) ==> name.0@ == old(
                self,
            ).second_text() && payload.view_type() == old(self).type_from(old(self).pos2()),
    {
        let start = self.span_here().start;
        match self.peek_kind() {
            Some(TokenKind::LParen) => {
                self.expect(TokenKind::LParen)?;
                let name = self.expect_pascal()?;
                if self.at_kind(TokenKind::RParen) {
                    self.expect(TokenKind::RParen)?;
                    Ok(EnumChild::Variant { name, span: self.span_from(start) })
                } else {
                    let payload = self.parse_type_expr()?;
                    self.expect(TokenKind::RParen)?;
                    Ok(EnumChild::DataVariant { name, payload, span: self.span_from(start) })
                }
            },
            Some(TokenKind::LBrace) => {
                let (d, fields) = self.parse_struct_def()?;
                Ok(EnumChild::StructVariant { name: d.name, fields, span: d.span })
            },
            Some(TokenKind::PascalIdent) => {
                let name = self.expect_pascal()?;
                Ok(EnumChild::Variant { name, span: self.span_from(start) })
            },
            _ => Err(unexpected_found("variant", self.peek_tok())),
        }
    }

    /// Reads a newtype definition `Name Type`.
    fn parse_newtype_def(&mut self) -> (r: Result<NewtypeDef, String>)
        requires
            old(self).at() <= old(self).toks().len(),
        ensures
            final(self).toks() == old(self).toks(),
            final(self).store() == old(self).store(),
            old(self).at() <= final(self).at() <= final(self).toks().len(),
            r is Ok ==> final(self).at() > old(self).at(),
            r matches Ok(n) ==> old(self).next_kind() == Some(TokenKind::PascalIdent)
                && n.name.0@ == old(self).next_tok().spec_ident(),
            agrees(r is Ok, newtype_end(old(self).shape(), old(self).at()), final(self).at()),
            r matches Ok(n) ==> n.wraps.view_type() == old(self).type_from(old(self).pos1()),
            r matches Ok(n) ==> n.span == span_through(old(self).toks(), old(self).at(), final(self).at()),
    {
        let start = self.span_here().start;
        let name = self.expect_pascal()?;
        let wraps = self.parse_type_expr()?;
        Ok(NewtypeDef { name, wraps, span: self.span_from(start) })
    }

    /// Reads a method signature `(name param.. ReturnType?)`; its parameters go to the
    /// arena.
    #[verifier::spinoff_prover]
    #[verifier::rlimit(80)]
    fn parse_method_sig(&mut self) -> (r: Result<MethodSig, String>)
        requires
            old(self).at() <= old(self).toks().len(),
        ensures
            final(self).follows(*old(self)),
            r is Ok ==> final(self).at() > old(self).at(),
            r is Ok ==> old(self).next_kind() == Some(TokenKind::LParen),
            r matches Ok(sig) ==> (final(self).store().indexable() ==> sig.refs_ok(
                final(self).store().sizes(),
            )),
            agrees(r is Ok, sig_end(old(self).shape(), old(self).at()), final(self).at()),
            r matches Ok(sg) ==> sg.name.0@ == old(self).second_text(),
            r matches Ok(sg) ==> (final(self).store().indexable() ==> sig_holds(
                final(self).store(),
                sg,
                old(self).toks(),
                old(self).at(),
            )),
            r is Ok ==> final(self).added(*old(self), params_n(sig_items_tree(old(self).toks(), old(self).pos2()).0.len())),
            r matches Ok(sg) ==> (final(self).store().indexable() ==> forall|i: int| 0 <= i < sg.params@.len() ==> #[trigger] sg.params@[i].0 == old(self).store().sizes().params + i),
            r matches Ok(sg) ==> sg.params@.len() == sig_items_tree(old(self).toks(), old(self).pos2()).0.len(),
            r matches Ok(sg) ==> sg.span == span_through(
                old(self).toks(),
                old(self).at(),
                final(self).at(),
            ),
    {
        let start = self.span_here().start;
        self.expect(TokenKind::LParen)?;
        let name = self.expect_camel()?;
        let ghost t = self.toks();
        let ghost q1 = self.at();
        let mut prefs: Vec<ParamRef> = Vec::new();
        let mut ret: Option<TypeExpr> = None;
        let ghost mut pv: Seq<ParamView> = Seq::empty();
        assert(sig_items_tree(t, q1).0 =~= pv + sig_items_tree(t, self.at()).0);
        assert(grew(old(self).store(), self.store(), params_n(pv.len())));
        while !self.at_kind(TokenKind::RParen)
            invariant_except_break
                sig_end(old(self).shape(), old(self).at()) == match sig_items_end(
                    self.shape(),
                    self.at(),
                ) {
                    Some(e) => tok(self.shape(), e, TokenKind::RParen),
                    None => None,
                },
                ret is None,
                sig_items_tree(t, q1).0 == pv + sig_items_tree(t, self.at()).0,
                sig_items_tree(t, q1).1 == sig_items_tree(t, self.at()).1,
            invariant
                self.follows(*old(self)),
                self.at() > old(self).at(),
                self.store().indexable() ==> params_below(prefs@, self.store().sizes().params),
                t == self.toks(),
                self.store().indexable() ==> params_are(self.store(), prefs@, pv),
                prefs@.len() == pv.len(),
                grew(old(self).store(), self.store(), params_n(pv.len())),
                self.store().indexable() ==> forall|i: int| 0 <= i < prefs@.len() ==> #[trigger] prefs@[i].0 == old(self).store().sizes().params + i,
            ensures
                sig_end(old(self).shape(), old(self).at()) == tok(
                    self.shape(),
                    self.at(),
                    TokenKind::RParen,
                ),
                ret is Some ==> sig_items_tree(t, q1) == (pv, opt_type_view(ret)),
                ret is None ==> self.next_kind() == Some(TokenKind::RParen) && sig_items_tree(
                    t,
                    q1,
                ).0 == pv + sig_items_tree(t, self.at()).0 && sig_items_tree(t, q1).1
                    == sig_items_tree(t, self.at()).1,
            decreases self.toks().len() - self.at(),
        {
            if self.at_end() {
                return Err(String::from_str("unexpected EOF in sig"));
            }
            let ghost h0 = self.at();
            let ghost a0 = self.store();
            if self.at_kind(TokenKind::Colon) || self.at_kind(TokenKind::Tilde) || self.at_kind(
                TokenKind::At,
            ) {
                let p = self.parse_param()?;
                let ghost x = p.view_param();
                let pr = self.arena.alloc_param(p);
                proof {
                    lemma_grew2(old(self).store(), a0, self.store(), params_n(pv.len()), params_n(1));
                    assert(params_n(pv.len()).plus(params_n(1)) == params_n(pv.len() + 1));
                    if self.store().indexable() {
                        assert(a0.indexable());
                        assert forall|i: int| 0 <= i < prefs@.push(pr).len() implies #[trigger] prefs@.push(pr)[i].0 == old(self).store().sizes().params + i by {
                            if i < prefs@.len() {
                                assert(prefs@.push(pr)[i] == prefs@[i]);
                            }
                        }
                    }
                    assert(sig_items_tree(t, h0) == (
                        seq![x] + sig_items_tree(t, self.at()).0,
                        sig_items_tree(t, self.at()).1,
                    ));
                    assert(pv + sig_items_tree(t, h0).0 =~= pv.push(x) + sig_items_tree(
                        t,
                        self.at(),
                    ).0);
                    if self.store().indexable() {
                        lemma_params_are_grow(a0, self.store(), prefs@, pv);
                        lemma_params_are_push(self.store(), prefs@, pv, pr, x);
                    }
                    pv = pv.push(x);
                }
                prefs.push(pr);
            } else {
                let ty = self.parse_type_expr()?;
                proof {
                    assert(sig_items_tree(t, h0) == (
                        Seq::<ParamView>::empty(),
                        Some(ty.view_type()),
                    ));
                    assert(pv + Seq::<ParamView>::empty() =~= pv);
                }
                ret = Some(ty);
                break;
            }
        }
        proof {
            if ret is None {
                assert(sig_items_tree(t, self.at()) == (Seq::<ParamView>::empty(), None::<TypeView>));
                assert(pv + Seq::<ParamView>::empty() =~= pv);
            }
        }
        self.expect(TokenKind::RParen)?;
        Ok(MethodSig { name, params: prefs, return_type: ret, span: self.span_from(start) })
    }

    /// Reads a method body: a block, a match, a loop, an iteration or a struct
    /// construction; which is decided by the next token.
    #[verifier::spinoff_prover]
    #[verifier::rlimit(80)]
    fn parse_method_body(&mut self) -> (r: Result<MethodBody, String>)
        requires
            old(self).at() <= old(self).toks().len(),
        ensures
            final(self).follows(*old(self)),
            r is Ok ==> final(self).at() > old(self).at(),
            r matches Ok(b) ==> (final(self).store().indexable() ==> b.refs_ok(
                final(self).store().sizes(),
            )),
            r matches Ok(MethodBody::Block(_)) ==> old(self).next_kind() == Some(
                TokenKind::LBracket,
            ),
            r matches Ok(MethodBody::Match(_)) ==> old(self).next_kind() == Some(
                TokenKind::LParenPipe,
            ),
            r matches Ok(MethodBody::Loop(_)) ==> old(self).next_kind() == Some(
                TokenKind::LBracketPipe,
            ),
            r matches Ok(MethodBody::Iteration { .. }) ==> old(self).next_kind() == Some(
                TokenKind::LBracePipe,
            ),
            r matches Ok(MethodBody::StructConstruct { .. }) ==> old(self).next_kind() == Some(
                TokenKind::LBrace,
            ),
            agrees(r is Ok, body_end(old(self).shape(), old(self).at()), final(self).at()),
            r matches Ok(b) ==> final(self).holds_body(b, body_tree(old(self).toks(), old(self).at())),
            r is Ok ==> final(self).added(*old(self), body_count(body_tree(old(self).toks(), old(self).at()))),
            r matches Ok(b) ==> (final(self).store().indexable() ==> placed_body(final(self).store(), old(self).store().sizes(), b, body_tree(old(self).toks(), old(self).at()))),
    {
        match self.peek_kind() {
            Some(TokenKind::LBracket) => {
                let b = self.parse_block()?;
                Ok(MethodBody::Block(b))
            },
            Some(TokenKind::LParenPipe) => {
                let m = self.parse_match_expr()?;
                Ok(MethodBody::Match(m))
            },
            Some(TokenKind::LBracketPipe) => {
                let b = self.parse_loop_block()?;
                Ok(MethodBody::Loop(b))
            },
            Some(TokenKind::LBracePipe) => {
                let (s, b) = self.parse_iteration()?;
                Ok(MethodBody::Iteration { source: s, body: b })
            },
            Some(TokenKind::LBrace) => {
                let start = self.span_here().start;
                self.expect(TokenKind::LBrace)?;
                let typ = self.expect_pascal()?;
                let refs = self.parse_field_inits()?;
                self.expect(TokenKind::RBrace)?;
                Ok(MethodBody::StructConstruct { typ, fields: refs, span: self.span_from(start) })
            },
            _ => Err(unexpected_found("method body", self.peek_tok())),
        }
    }

    /// Reads a method definition `(name param.. ReturnType? body?)`; a method with no
    /// body gets an empty block.
    #[verifier::spinoff_prover]
    #[verifier::rlimit(80)]
    fn parse_method_def(&mut self) -> (r: Result<MethodDef, String>)
        requires
            old(self).at() <= old(self).toks().len(),
        ensures
            final(self).follows(*old(self)),
            r is Ok ==> final(self).at() > old(self).at(),
            r is Ok ==> old(self).next_kind() == Some(TokenKind::LParen),
            r matches Ok(md) ==> (final(self).store().indexable() ==> md.refs_ok(
                final(self).store().sizes(),
            )),
            agrees(r is Ok, method_end(old(self).shape(), old(self).at()), final(self).at()),
            r matches Ok(md) ==> md.name.0@ == old(self).second_text(),
            r matches Ok(md) ==> (final(self).store().indexable() ==> method_holds(
                final(self).store(),
                md,
                old(self).toks(),
                old(self).at(),
            )),
            r is Ok ==> final(self).added(*old(self), method_count(old(self).toks(), old(self).at())),
            r matches Ok(md) ==> (final(self).store().indexable() ==> placed_method(final(self).store(), old(self).store().sizes(), md, old(self).toks(), old(self).at())),
            r matches Ok(md) ==> md.span == span_through(
                old(self).toks(),
                old(self).at(),
                final(self).at(),
            ),
    {
        let start = self.span_here().start;
        self.expect(TokenKind::LParen)?;
        let name = self.expect_camel()?;
        let ghost q1 = self.at();
        let mut prefs: Vec<ParamRef> = Vec::new();
        let mut ret: Option<TypeExpr> = None;
        let ghost mut pv: Seq<ParamView> = Seq::empty();
        let ghost mut rv: Option<TypeView> = None;
        assert(head_tree(self.toks(), q1).0 =~= pv + head_tree(self.toks(), self.at()).0);
        assert(grew(old(self).store(), self.store(), params_n(pv.len())));
        loop
            invariant
                self.follows(*old(self)),
                self.at() > old(self).at(),
                self.store().indexable() ==> params_below(prefs@, self.store().sizes().params),
                q1 == after(self.shape(), after(self.shape(), old(self).at())),
                method_head_end(self.shape(), q1) == method_head_end(self.shape(), self.at()),
                self.store().indexable() ==> params_are(self.store(), prefs@, pv),
                opt_type_view(ret) == rv,
                prefs@.len() == pv.len(),
                grew(old(self).store(), self.store(), params_n(pv.len())),
                self.store().indexable() ==> forall|i: int| 0 <= i < prefs@.len() ==> #[trigger] prefs@[i].0 == old(self).store().sizes().params + i,
                head_tree(self.toks(), q1).0 == pv + head_tree(self.toks(), self.at()).0,
                head_tree(self.toks(), q1).1 == last_type(head_tree(self.toks(), self.at()).1, rv),
                method_end(old(self).shape(), old(self).at()) == match method_head_end(
                    self.shape(),
                    self.at(),
                ) {
                    Some(q2) => if kind_at(self.shape(), q2) == Some(TokenKind::RParen) {
                        tok(self.shape(), q2, TokenKind::RParen)
                    } else {
                        match body_end(self.shape(), q2) {
                            Some(e) => tok(self.shape(), e, TokenKind::RParen),
                            None => None,
                        }
                    },
                    None => None,
                },
            ensures
                ends_method_head(self.next_kind()),
            decreases self.toks().len() - self.at(),
        {
            let ghost h0 = self.at();
            let ghost a0 = self.store();
            match self.peek_kind() {
                Some(TokenKind::Colon) | Some(TokenKind::Tilde) | Some(TokenKind::At) => {
                    let p = self.parse_param()?;
                    let ghost x = p.view_param();
                    let pr = self.arena.alloc_param(p);
                    proof {
                        lemma_grew2(old(self).store(), a0, self.store(), params_n(pv.len()), params_n(1));
                        assert(params_n(pv.len()).plus(params_n(1)) == params_n(pv.len() + 1));
                        if self.store().indexable() {
                            assert(a0.indexable());
                            assert forall|i: int| 0 <= i < prefs@.push(pr).len() implies #[trigger] prefs@.push(pr)[i].0 == old(self).store().sizes().params + i by {
                                if i < prefs@.len() {
                                    assert(prefs@.push(pr)[i] == prefs@[i]);
                                }
                            }
                        }
                        assert(head_tree(self.toks(), h0) == (
                            seq![x] + head_tree(self.toks(), self.at()).0,
                            head_tree(self.toks(), self.at()).1,
                        ));
                        assert(pv + head_tree(self.toks(), h0).0 =~= pv.push(x) + head_tree(
                            self.toks(),
                            self.at(),
                        ).0);
                        if self.store().indexable() {
                            lemma_params_are_grow(a0, self.store(), prefs@, pv);
                            lemma_params_are_push(self.store(), prefs@, pv, pr, x);
                        }
                        pv = pv.push(x);
                    }
                    prefs.push(pr);
                },
                Some(TokenKind::LBracket) | Some(TokenKind::LParenPipe) | Some(
                    TokenKind::LBracketPipe,
                ) | Some(TokenKind::LBracePipe) | Some(TokenKind::LBrace) | Some(
                    TokenKind::RParen,
                ) => {
                    break;
                },
                _ => {
                    let t = self.parse_type_expr()?;
                    proof {
                        assert(head_tree(self.toks(), h0) == (
                            head_tree(self.toks(), self.at()).0,
                            last_type(head_tree(self.toks(), self.at()).1, Some(t.view_type())),
                        ));
                        rv = Some(t.view_type());
                    }
                    ret = Some(t);
                },
            }
        }
        proof {
            assert(method_head_end(self.shape(), self.at()) == Some(self.at()));
            assert(head_tree(self.toks(), self.at()) == (Seq::<ParamView>::empty(), None::<TypeView>));
            assert(pv + Seq::<ParamView>::empty() =~= pv);
        }
        let ghost a1 = self.store();
        let body = if self.at_kind(TokenKind::RParen) {
            let b = self.arena.alloc_block(Block { stmts: Vec::new(), tail: None });
            let mb = MethodBody::Block(b);
            proof {
                let ev = BlockView { stmts: Seq::<StmtView>::empty(), tail: None };
                assert(stmts_count(Seq::<StmtView>::empty()) == Sizes::none());
                assert(block_count(ev) == Sizes::none().plus(Sizes::none()).plus(one_block()));
                assert(self.store().indexable() ==> placed_body(self.store(), a1.sizes(), mb, BodyView::Block(ev))) by {
                    reveal(placed_block);
                    reveal(placed_stmts);
                    reveal(placed_expr);
                    reveal(placed_exprs);
                    reveal(placed_inits);
                    reveal(placed_statement);
                    reveal(placed_match);
                    reveal(placed_arms);
                    lemma_place_empty(self.store(), a1.sizes());
                }
            }
            assert(self.holds_body(mb, method_body_tree(self.toks(), old(self).at()))) by {
                reveal(block_is);
                reveal(stmts_are);
            }
            mb
        } else {
            self.parse_method_body()?
        };
        let ghost a2 = self.store();
        self.expect(TokenKind::RParen)?;
        proof {
            if self.store().indexable() {
                lemma_params_are_grow(a1, self.store(), prefs@, pv);
            }
            assert(head_tree(self.toks(), q1).0 == pv);
            lemma_grew2(old(self).store(), a1, self.store(), params_n(pv.len()), body_count(method_body_tree(self.toks(), old(self).at())));
            if self.store().indexable() {
                assert(a1.indexable());
            }
        }
        Ok(
            MethodDef {
                name,
                params: prefs,
                return_type: ret,
                body,
                span: self.span_from(start),
            },
        )
    }

    /// Reads a trait implementation `[trait Type [method..]]`; its methods go to the
    /// arena.
    #[verifier::spinoff_prover]
    #[verifier::rlimit(80)]
    fn parse_trait_impl(&mut self) -> (r: Result<RootChild, String>)
        requires
            old(self).at() <= old(self).toks().len(),
        ensures
            final(self).follows(*old(self)),
            r is Ok ==> final(self).at() > old(self).at(),
            r is Ok ==> old(self).next_kind() == Some(TokenKind::LBracket),
            r matches Ok(c) ==> c is TraitImpl && (final(self).store().indexable() ==> c.refs_ok(
                final(self).store().sizes(),
            )),
            agrees(r is Ok, impl_end(old(self).shape(), old(self).at()), final(self).at()),
            r matches Ok(RootChild::TraitImpl(i)) ==> i.methods@.len() == methods_count(
                old(self).shape(),
                after(old(self).shape(), old(self).pos3()),
            ),
            r matches Ok(RootChild::TraitImpl(i)) ==> i.trait_name.0@ == old(self).second_text()
                && i.for_type.0@ == old(self).text_at(
                after(old(self).shape(), after(old(self).shape(), old(self).at())),
            ),
            r matches Ok(c) ==> (final(self).store().indexable() ==> root_holds(
                final(self).store(),
                c,
                old(self).toks(),
                old(self).at(),
            )),
            r is Ok ==> final(self).added(
                *old(self),
                methods_total(
                    old(self).toks(),
                    method_starts(old(self).shape(), impl_methods_at(old(self).shape(), old(self).at())),
                ),
            ),
            r matches Ok(RootChild::TraitImpl(i)) ==> (final(self).store().indexable() ==> placed_methods(
                final(self).store(),
                old(self).store().sizes(),
                i.methods@,
                old(self).toks(),
                method_starts(old(self).shape(), impl_methods_at(old(self).shape(), old(self).at())),
            )),
            r matches Ok(RootChild::TraitImpl(i)) ==> i.span == span_through(
                old(self).toks(),
                old(self).at(),
                final(self).at(),
            ),
    {
        let start = self.span_here().start;
        self.expect(TokenKind::LBracket)?;
        let trait_name = self.expect_camel()?;
        let for_type = self.expect_pascal()?;
        self.expect(TokenKind::LBracket)?;
        let ghost t = self.toks();
        let ghost q3 = self.at();
        let mut refs: Vec<MethodDefRef> = Vec::new();
        let ghost mut ps: Seq<int> = Seq::empty();
        assert(method_starts(self.shape(), q3) =~= ps + method_starts(self.shape(), self.at()));
        assert(grew(old(self).store(), self.store(), methods_total(t, ps)));
        assert(placed_methods(self.store(), old(self).store().sizes(), refs@, t, ps));
        while !self.at_kind(TokenKind::RBracket)
            invariant
                t == self.toks(),
                q3 == impl_methods_at(self.shape(), old(self).at()),
                self.store().indexable() ==> methods_hold(self.store(), refs@, t, ps),
                grew(old(self).store(), self.store(), methods_total(t, ps)),
                self.store().indexable() ==> placed_methods(self.store(), old(self).store().sizes(), refs@, t, ps),
                method_starts(self.shape(), q3) == ps + method_starts(self.shape(), self.at()),
                self.follows(*old(self)),
                self.at() > old(self).at(),
                self.store().indexable() ==> method_defs_below(
                    refs@,
                    self.store().sizes().method_defs,
                ),
                refs@.len() + methods_count(self.shape(), self.at()) == methods_count(
                    old(self).shape(),
                    after(old(self).shape(), old(self).pos3()),
                ),
                impl_end(old(self).shape(), old(self).at()) == match methods_end(
                    self.shape(),
                    self.at(),
                ) {
                    Some(q4) => match tok(self.shape(), q4, TokenKind::RBracket) {
                        Some(e) => tok(self.shape(), e, TokenKind::RBracket),
                        None => None,
                    },
                    None => None,
                },
            decreases self.toks().len() - self.at(),
        {
            if self.at_end() {
                return Err(String::from_str("unexpected EOF in impl"));
            }
            let ghost a0 = self.store();
            let ghost m0 = self.at();
            let md = self.parse_method_def()?;
            let ghost a1 = self.store();
            let ghost mdv = md;
            let mr = self.arena.alloc_method_def(md);
            proof {
                lemma_grew3(old(self).store(), a0, a1, self.store(), methods_total(t, ps), method_count(t, m0), one_method());
                assert(ps.push(m0).drop_last() =~= ps);
                assert(refs@.push(mr).drop_last() =~= refs@);
                if self.store().indexable() {
                    assert(a1.indexable());
                    assert(a0.indexable());
                    lemma_placed_methods_grow(a0, self.store(), old(self).store().sizes(), refs@, t, ps);
                    lemma_placed_method_grow(a1, self.store(), a0.sizes(), mdv, t, m0);
                    assert(placed_methods(self.store(), old(self).store().sizes(), refs@.push(mr), t, ps.push(m0)));
                }
                keep_methods(a0, self.store(), refs@, t, ps);
                if self.store().indexable() {
                    keep_method(a1, self.store(), mdv, t, m0);
                    assert(methods_hold(self.store(), refs@.push(mr), t, ps.push(m0))) by {
                        assert forall|j: int| 0 <= j < refs@.push(mr).len() implies (
                        #[trigger] refs@.push(mr)[j]).0 < self.store().method_defs@.len()
                            && method_holds(
                            self.store(),
                            self.store().method_defs@[refs@.push(mr)[j].0 as int],
                            t,
                            ps.push(m0)[j],
                        ) by {
                            if j < refs@.len() {
                                assert(refs@.push(mr)[j] == refs@[j]);
                            }
                        }
                    }
                }
                assert(method_starts(self.shape(), m0) == seq![m0] + method_starts(
                    self.shape(),
                    self.at(),
                ));
                assert(ps + method_starts(self.shape(), m0) =~= ps.push(m0) + method_starts(
                    self.shape(),
                    self.at(),
                ));
                ps = ps.push(m0);
            }
            refs.push(mr);
        }
        proof {
            assert(method_starts(self.shape(), self.at()) =~= Seq::<int>::empty());
            assert(ps + Seq::<int>::empty() =~= ps);
        }
        self.expect(TokenKind::RBracket)?;
        self.expect(TokenKind::RBracket)?;
        Ok(
            RootChild::TraitImpl(
                TraitImplDef { trait_name, for_type, methods: refs, span: self.span_from(start) },
            ),
        )
    }

    /// Reads a constant `{| Name Type literal |}`.
    #[verifier::spinoff_prover]
    #[verifier::rlimit(80)]
    fn parse_const(&mut self) -> (r: Result<RootChild, String>)
        requires
            old(self).at() <= old(self).toks().len(),
        ensures
            final(self).toks() == old(self).toks(),
            final(self).store() == old(self).store(),
            old(self).at() <= final(self).at() <= final(self).toks().len(),
            r is Ok ==> final(self).at() > old(self).at(),
            r is Ok ==> old(self).next_kind() == Some(TokenKind::LBracePipe),
            r matches Ok(c) ==> c is Const,
            agrees(r is Ok, const_end(old(self).shape(), old(self).at()), final(self).at()),
            r matches Ok(RootChild::Const(c)) ==> c.typ.view_type() == old(self).type_from(
                old(self).pos2(),
            ) && literal_of(c.value, old(self).tok_at(old(self).type_end_from(old(self).pos2()))),
            r matches Ok(RootChild::Const(c)) ==> c.name.0@ == old(self).second_text(),
            r matches Ok(RootChild::Const(c)) ==> c.span == span_through(
                old(self).toks(),
                old(self).at(),
                final(self).at(),
            ),
    {
        let start = self.span_here().start;
        self.expect(TokenKind::LBracePipe)?;
        let name = self.expect_pascal()?;
        let typ = self.parse_type_expr()?;
        let value = match self.peek_tok() {
            Some(Token::Integer(v)) => {
                let n: i64 = *v;
                self.advance();
                LiteralValue::Int(n)
            },
            Some(Token::Float(v)) => {
                let digits = v.clone();
                self.advance();
                LiteralValue::Float(digits)
            },
            Some(Token::StringLit(v)) => {
                let text = v.clone();
                self.advance();
                LiteralValue::Str(text)
            },
            other => {
                return Err(unexpected_found("literal", other));
            },
        };
        self.expect(TokenKind::RPipeBrace)?;
        Ok(RootChild::Const(ConstDef { name, typ, value, span: self.span_from(start) }))
    }

    /// Reads a foreign function `(name @param.. ReturnType?)`; its parameters go to the
    /// arena.
    #[verifier::spinoff_prover]
    #[verifier::rlimit(80)]
    fn parse_ffi_function(&mut self) -> (r: Result<FfiFunction, String>)
        requires
            old(self).at() <= old(self).toks().len(),
        ensures
            final(self).follows(*old(self)),
            r is Ok ==> final(self).at() > old(self).at(),
            r is Ok ==> old(self).next_kind() == Some(TokenKind::LParen),
            r matches Ok(f) ==> (final(self).store().indexable() ==> f.refs_ok(
                final(self).store().sizes(),
            )),
            agrees(r is Ok, ffi_fn_end(old(self).shape(), old(self).at()), final(self).at()),
            r matches Ok(f) ==> f.name.0@ == old(self).second_text(),
            r matches Ok(f) ==> (final(self).store().indexable() ==> ffi_fn_holds(
                final(self).store(),
                f,
                old(self).toks(),
                old(self).at(),
            )),
            r is Ok ==> final(self).added(*old(self), params_n(ffi_items_tree(old(self).toks(), old(self).pos2()).0.len())),
            r matches Ok(f) ==> (final(self).store().indexable() ==> forall|i: int| 0 <= i < f.params@.len() ==> #[trigger] f.params@[i].0 == old(self).store().sizes().params + i),
            r matches Ok(f) ==> f.params@.len() == ffi_items_tree(old(self).toks(), old(self).pos2()).0.len(),
            r matches Ok(f) ==> f.span == span_through(
                old(self).toks(),
                old(self).at(),
                final(self).at(),
            ),
    {
        let start = self.span_here().start;
        self.expect(TokenKind::LParen)?;
        let name = self.expect_camel()?;
        let ghost t = self.toks();
        let ghost q1 = self.at();
        let mut prefs: Vec<ParamRef> = Vec::new();
        let mut ret: Option<TypeExpr> = None;
        let ghost mut pv: Seq<ParamView> = Seq::empty();
        let ghost mut rv: Option<TypeView> = None;
        assert(ffi_items_tree(t, q1).0 =~= pv + ffi_items_tree(t, self.at()).0);
        assert(grew(old(self).store(), self.store(), params_n(pv.len())));
        while !self.at_kind(TokenKind::RParen)
            invariant
                self.follows(*old(self)),
                self.at() > old(self).at(),
                self.store().indexable() ==> params_below(prefs@, self.store().sizes().params),
                ffi_fn_end(old(self).shape(), old(self).at()) == match ffi_fn_items_end(
                    self.shape(),
                    self.at(),
                ) {
                    Some(e) => tok(self.shape(), e, TokenKind::RParen),
                    None => None,
                },
                t == self.toks(),
                self.store().indexable() ==> params_are(self.store(), prefs@, pv),
                opt_type_view(ret) == rv,
                prefs@.len() == pv.len(),
                grew(old(self).store(), self.store(), params_n(pv.len())),
                self.store().indexable() ==> forall|i: int| 0 <= i < prefs@.len() ==> #[trigger] prefs@[i].0 == old(self).store().sizes().params + i,
                ffi_items_tree(t, q1).0 == pv + ffi_items_tree(t, self.at()).0,
                ffi_items_tree(t, q1).1 == last_type(ffi_items_tree(t, self.at()).1, rv),
            decreases self.toks().len() - self.at(),
        {
            if self.at_end() {
                return Err(String::from_str("unexpected EOF in FFI fn"));
            }
            let ghost h0 = self.at();
            let ghost a0 = self.store();
            if self.at_kind(TokenKind::At) {
                let p = self.parse_param()?;
                let ghost x = p.view_param();
                let pr = self.arena.alloc_param(p);
                proof {
                    lemma_grew2(old(self).store(), a0, self.store(), params_n(pv.len()), params_n(1));
                    assert(params_n(pv.len()).plus(params_n(1)) == params_n(pv.len() + 1));
                    if self.store().indexable() {
                        assert(a0.indexable());
                        assert forall|i: int| 0 <= i < prefs@.push(pr).len() implies #[trigger] prefs@.push(pr)[i].0 == old(self).store().sizes().params + i by {
                            if i < prefs@.len() {
                                assert(prefs@.push(pr)[i] == prefs@[i]);
                            }
                        }
                    }
                    assert(ffi_items_tree(t, h0) == (
                        seq![x] + ffi_items_tree(t, self.at()).0,
                        ffi_items_tree(t, self.at()).1,
                    ));
                    assert(pv + ffi_items_tree(t, h0).0 =~= pv.push(x) + ffi_items_tree(
                        t,
                        self.at(),
                    ).0);
                    if self.store().indexable() {
                        lemma_params_are_grow(a0, self.store(), prefs@, pv);
                        lemma_params_are_push(self.store(), prefs@, pv, pr, x);
                    }
                    pv = pv.push(x);
                }
                prefs.push(pr);
            } else {
                let ty = self.parse_type_expr()?;
                proof {
                    assert(ffi_items_tree(t, h0) == (
                        ffi_items_tree(t, self.at()).0,
                        last_type(ffi_items_tree(t, self.at()).1, Some(ty.view_type())),
                    ));
                    rv = Some(ty.view_type());
                }
                ret = Some(ty);
            }
        }
        proof {
            assert(ffi_items_tree(t, self.at()) == (Seq::<ParamView>::empty(), None::<TypeView>));
            assert(pv + Seq::<ParamView>::empty() =~= pv);
        }
        self.expect(TokenKind::RParen)?;
        Ok(FfiFunction { name, params: prefs, return_type: ret, span: self.span_from(start) })
    }

    /// Reads a foreign library `(| Library function.. |)`.
    #[verifier::spinoff_prover]
    #[verifier::rlimit(80)]
    fn parse_ffi(&mut self) -> (r: Result<RootChild, String>)
        requires
            old(self).at() <= old(self).toks().len(),
        ensures
            final(self).follows(*old(self)),
            r is Ok ==> final(self).at() > old(self).at(),
            r is Ok ==> old(self).next_kind() == Some(TokenKind::LParenPipe),
            r matches Ok(c) ==> c is Ffi && (final(self).store().indexable() ==> c.refs_ok(
                final(self).store().sizes(),
            )),
            agrees(r is Ok, ffi_end(old(self).shape(), old(self).at()), final(self).at()),
            r matches Ok(RootChild::Ffi(f)) ==> f.library.0@ == old(self).second_text(),
            r matches Ok(RootChild::Ffi(f)) ==> f.functions@.len() == ffi_fns_count(
                old(self).shape(),
                old(self).pos2(),
            ),
            r is Ok ==> final(self).added(
                *old(self),
                params_n(ffi_params_total(old(self).toks(), ffi_starts(old(self).shape(), old(self).pos2()))),
            ),
            r matches Ok(RootChild::Ffi(d)) ==> (final(self).store().indexable() ==> forall|j: int, i: int|
                #![trigger d.functions@[j].params@[i]]
                0 <= j < d.functions@.len() && 0 <= i < d.functions@[j].params@.len() ==> d.functions@[j].params@[i].0
                    == old(self).store().sizes().params + ffi_params_total(
                    old(self).toks(),
                    ffi_starts(old(self).shape(), old(self).pos2()).take(j),
                ) + i),
            r matches Ok(c) ==> (final(self).store().indexable() ==> root_holds(
                final(self).store(),
                c,
                old(self).toks(),
                old(self).at(),
            )),
            r matches Ok(RootChild::Ffi(f)) ==> f.span == span_through(
                old(self).toks(),
                old(self).at(),
                final(self).at(),
            ),
    {
        let start = self.span_here().start;
        self.expect(TokenKind::LParenPipe)?;
        let library = self.expect_pascal()?;
        let ghost t = self.toks();
        let ghost q1 = self.at();
        let mut fns: Vec<FfiFunction> = Vec::new();
        let ghost mut fs: Seq<int> = Seq::empty();
        assert(ffi_starts(self.shape(), q1) =~= fs + ffi_starts(self.shape(), self.at()));
        assert(grew(old(self).store(), self.store(), params_n(ffi_params_total(t, fs))));
        while !self.at_kind(TokenKind::RPipeParen)
            invariant
                t == self.toks(),
                q1 == after(self.shape(), after(self.shape(), old(self).at())),
                ffi_starts(self.shape(), q1) == fs + ffi_starts(self.shape(), self.at()),
                fs.len() == fns@.len(),
                grew(old(self).store(), self.store(), params_n(ffi_params_total(t, fs))),
                self.store().indexable() ==> forall|j: int, i: int|
                    #![trigger fns@[j].params@[i]]
                    0 <= j < fns@.len() && 0 <= i < fns@[j].params@.len() ==> fns@[j].params@[i].0
                        == old(self).store().sizes().params + ffi_params_total(t, fs.take(j)) + i,
                self.store().indexable() ==> forall|j: int|
                    0 <= j < fs.len() ==> ffi_fn_holds(self.store(), #[trigger] fns@[j], t, fs[j]),
                self.follows(*old(self)),
                self.at() > old(self).at(),
                self.store().indexable() ==> forall|k: int|
                    0 <= k < fns@.len() ==> (#[trigger] fns@[k]).refs_ok(self.store().sizes()),
                fns@.len() + ffi_fns_count(self.shape(), self.at()) == ffi_fns_count(
                    old(self).shape(),
                    old(self).pos2(),
                ),
                ffi_end(old(self).shape(), old(self).at()) == match ffi_fns_end(
                    self.shape(),
                    self.at(),
                ) {
                    Some(e) => tok(self.shape(), e, TokenKind::RPipeParen),
                    None => None,
                },
            decreases self.toks().len() - self.at(),
        {
            if self.at_end() {
                return Err(String::from_str("unexpected EOF in FFI"));
            }
            let ghost s0 = self.store().sizes();
            let ghost a0 = self.store();
            let ghost m0 = self.at();
            let f = self.parse_ffi_function()?;
            proof {
                if self.store().indexable() {
                    assert forall|k: int| 0 <= k < fns@.len() implies (#[trigger] fns@[k]).refs_ok(
                        self.store().sizes(),
                    ) by {
                        fns@[k].lemma_grow(s0, self.store().sizes());
                    }
                    assert forall|j: int| 0 <= j < fs.len() implies ffi_fn_holds(
                        self.store(),
                        #[trigger] fns@[j],
                        t,
                        fs[j],
                    ) by {
                        lemma_params_are_grow(
                            a0,
                            self.store(),
                            fns@[j].params@,
                            ffi_items_tree(t, after(self.shape(), after(self.shape(), fs[j]))).0,
                        );
                    }
                }
                assert(ffi_starts(self.shape(), m0) == seq![m0] + ffi_starts(
                    self.shape(),
                    self.at(),
                ));
                assert(fs + ffi_starts(self.shape(), m0) =~= fs.push(m0) + ffi_starts(
                    self.shape(),
                    self.at(),
                ));
            }
            let ghost old_fns = fns@;
            proof {
                lemma_grew2(old(self).store(), a0, self.store(), params_n(ffi_params_total(t, fs)), params_n(ffi_param_count(t, m0)));
                assert(fs.push(m0).drop_last() =~= fs);
                assert(ffi_params_total(t, fs.push(m0)) == ffi_params_total(t, fs) + ffi_param_count(t, m0));
                assert(params_n(ffi_params_total(t, fs)).plus(params_n(ffi_param_count(t, m0))) == params_n(ffi_params_total(t, fs.push(m0))));
            }
            fns.push(f);
            proof {
                if self.store().indexable() {
                    assert(a0.indexable());
                    assert forall|j: int, i: int|
                        #![trigger fns@[j].params@[i]]
                        0 <= j < fns@.len() && 0 <= i < fns@[j].params@.len() implies fns@[j].params@[i].0
                            == old(self).store().sizes().params + ffi_params_total(t, fs.push(m0).take(j)) + i by {
                        if j < fs.len() {
                            assert(fns@[j] == old_fns[j]);
                            assert(fs.push(m0).take(j) =~= fs.take(j));
                        } else {
                            assert(fns@[j] == f);
                            assert(fs.push(m0).take(j) =~= fs);
                        }
                    }
                }
                assert forall|j: int| 0 <= j < fs.push(m0).len() implies (self.store().indexable()
                    ==> ffi_fn_holds(self.store(), #[trigger] fns@[j], t, fs.push(m0)[j])) by {
                    if j < fs.len() {
                        assert(fns@[j] == old_fns[j]);
                    }
                }
                fs = fs.push(m0);
            }
        }
        proof {
            assert(ffi_starts(self.shape(), self.at()) =~= Seq::<int>::empty());
            assert(fs + Seq::<int>::empty() =~= fs);
        }
        self.expect(TokenKind::RPipeParen)?;
        Ok(RootChild::Ffi(FfiDef { library, functions: fns, span: self.span_from(start) }))
    }

    /// Reads a process `[| statement.. tail? |]`; a last statement that is a bare
    /// expression becomes the tail.
    #[verifier::spinoff_prover]
    #[verifier::rlimit(80)]
    fn parse_process(&mut self) -> (r: Result<RootChild, String>)
        requires
            old(self).at() <= old(self).toks().len(),
        ensures
            final(self).follows(*old(self)),
            r is Ok ==> final(self).at() > old(self).at(),
            r is Ok ==> old(self).next_kind() == Some(TokenKind::LBracketPipe),
            r matches Ok(c) ==> c is Process && (final(self).store().indexable() ==> c.refs_ok(
                final(self).store().sizes(),
            )),
            agrees(r is Ok, loop_end(old(self).shape(), old(self).at()), final(self).at()),
            r is Ok ==> final(self).added(*old(self), block_count(stmts_tree(old(self).toks(), after(old(self).shape(), old(self).at()), TokenKind::RPipeBracket, true))),
            r matches Ok(RootChild::Process(b)) ==> final(self).last_block(b),
            r matches Ok(c) ==> (final(self).store().indexable() ==> placed_block(final(self).store(), old(self).store().sizes(), stmts_tree(old(self).toks(), after(old(self).shape(), old(self).at()), TokenKind::RPipeBracket, true))),
            r matches Ok(c) ==> (final(self).store().indexable() ==> root_holds(
                final(self).store(),
                c,
                old(self).toks(),
                old(self).at(),
            )),
    {
        reveal(loop_end);
        reveal(stmts_end);
        reveal(statement_end);
        let ghost t = self.toks();
        self.expect(TokenKind::LBracketPipe)?;
        let ghost q = self.at();
        let mut srefs: Vec<StmtRef> = Vec::new();
        let mut tail: Option<ExprRef> = None;
        let ghost mut vs: Seq<StmtView> = Seq::empty();
        let ghost mut tv: Option<Box<ExprView>> = None;
        assert(stmts_are(self.store(), srefs@, vs)) by {
            reveal(stmts_are);
        }
        assert(vs + stmts_tree(t, q, TokenKind::RPipeBracket, true).stmts =~= stmts_tree(
            t,
            q,
            TokenKind::RPipeBracket,
            true,
        ).stmts);
        assert(grew(old(self).store(), self.store(), stmts_count(vs).plus(Sizes::none())));
        proof {
            lemma_place_empty(self.store(), old(self).store().sizes());
        }
        while !self.at_kind(TokenKind::RPipeBracket)
            invariant_except_break
                tail is None,
                self.store().indexable() ==> stmts_tree(t, q, TokenKind::RPipeBracket, true)
                    == (BlockView {
                    stmts: vs + stmts_tree(t, self.at(), TokenKind::RPipeBracket, true).stmts,
                    tail: stmts_tree(t, self.at(), TokenKind::RPipeBracket, true).tail,
                }),
            invariant
                self.follows(*old(self)),
                self.at() > old(self).at(),
                self.store().indexable() ==> stmts_below(srefs@, self.store().sizes().stmts),
                tail matches Some(t) ==> self.has_expr(t),
                loop_end(old(self).shape(), old(self).at()) == match stmts_end(
                    self.shape(),
                    self.at(),
                    TokenKind::RPipeBracket,
                ) {
                    Some(e) => tok(self.shape(), e, TokenKind::RPipeBracket),
                    None => None,
                },
                t == self.toks(),
                self.store().indexable() ==> stmts_are(self.store(), srefs@, vs),
                (tail is Some) == (tv is Some),
                tail matches Some(e) ==> self.holds_expr(e, *(tv->0)),
                grew(old(self).store(), self.store(), stmts_count(vs).plus(match tv { Some(x) => expr_count(*x), None => Sizes::none() })),
                self.store().indexable() ==> placed_stmts(self.store(), old(self).store().sizes(), srefs@, vs),
                tail matches Some(e) ==> (self.store().indexable() ==> e.0 == expr_slot(old(self).store().sizes().plus(stmts_count(vs)), *(tv->0)) && placed_expr(self.store(), old(self).store().sizes().plus(stmts_count(vs)), *(tv->0))),
            ensures
                self.next_kind() == Some(TokenKind::RPipeBracket),
                self.store().indexable() ==> stmts_tree(t, q, TokenKind::RPipeBracket, true) == if tail
                    is Some {
                    BlockView { stmts: vs, tail: tv }
                } else {
                    BlockView {
                        stmts: vs + stmts_tree(t, self.at(), TokenKind::RPipeBracket, true).stmts,
                        tail: stmts_tree(t, self.at(), TokenKind::RPipeBracket, true).tail,
                    }
                },
            decreases self.toks().len() - self.at(),
        {
            reveal(loop_end);
            reveal(stmts_end);
            reveal(statement_end);
            if self.at_end() {
                return Err(String::from_str("unexpected EOF in process"));
            }
            let before = self.pos;
            let ghost a0 = self.store();
            let st = self.parse_statement()?;
            let ghost x = statement_tree(t, before as int);
            let ghost stv = st;
            let ghost a1 = self.store();
            if self.at_kind(TokenKind::RPipeBracket) {
                match st {
                    Statement::Expr(e) => {
                        proof {
                            keep_stmts(a0, self.store(), srefs@, vs);
                            let xe = match x {
                                StmtView::Expr(y) => y,
                                _ => arbitrary(),
                            };
                            if self.store().indexable() {
                                assert(x == StmtView::Expr(xe) && expr_is(self.store(), e, xe)) by {
                                    reveal(statement_is);
                                    reveal(expr_is);
                                }
                                lemma_grew2(old(self).store(), a0, self.store(), stmts_count(vs).plus(Sizes::none()), statement_count(x));
                                assert(a0.indexable());
                                lemma_placed_stmts_grow(a0, self.store(), old(self).store().sizes(), srefs@, vs);
                                assert(a0.sizes() == old(self).store().sizes().plus(stmts_count(vs)));
                                assert(e.0 == expr_slot(a0.sizes(), xe) && placed_expr(self.store(), a0.sizes(), xe)) by {
                                    reveal(placed_expr);
                                    reveal(placed_exprs);
                                    reveal(placed_inits);
                                    reveal(placed_block);
                                    reveal(placed_stmts);
                                    reveal(placed_statement);
                                    reveal(placed_match);
                                    reveal(placed_arms);
                                }
                                lemma_stmts_tail(t, before as int, self.at(), TokenKind::RPipeBracket, xe);
                                assert(vs + Seq::<StmtView>::empty() =~= vs);
                            }
                            tv = Some(Box::new(xe));
                        }
                        tail = Some(e);
                        break;
                    },
                    other => {
                        let sr = self.arena.alloc_stmt(other);
                        proof {
                            lemma_grew3(old(self).store(), a0, a1, self.store(), stmts_count(vs).plus(Sizes::none()), statement_count(x), one_stmt());
                            assert(vs.push(x).drop_last() =~= vs);
                            lemma_place_stmts_push(a0, a1, self.store(), old(self).store().sizes(), srefs@, vs, sr, stv, x);
                            keep_stmts(a0, self.store(), srefs@, vs);
                            keep_statement(a1, self.store(), stv, x);
                            if self.store().indexable() {
                                assert(stmt_is(self.store(), sr, x) && !(x is Expr)) by {
                                    reveal(stmt_is);
                                    reveal(statement_is);
                                }
                                lemma_stmts_are_push(self.store(), srefs@, vs, sr, x);
                                lemma_stmts_step(t, before as int, self.at(), TokenKind::RPipeBracket, true);
                                assert(vs + stmts_tree(t, before as int, TokenKind::RPipeBracket, true).stmts
                                    =~= vs.push(x) + stmts_tree(
                                    t,
                                    self.at(),
                                    TokenKind::RPipeBracket,
                                    true,
                                ).stmts);
                            }
                            vs = vs.push(x);
                        }
                        srefs.push(sr);
                    },
                }
            } else {
                let sr = self.arena.alloc_stmt(st);
                proof {
                    lemma_grew3(old(self).store(), a0, a1, self.store(), stmts_count(vs).plus(Sizes::none()), statement_count(x), one_stmt());
                    assert(vs.push(x).drop_last() =~= vs);
                    lemma_place_stmts_push(a0, a1, self.store(), old(self).store().sizes(), srefs@, vs, sr, stv, x);
                    keep_stmts(a0, self.store(), srefs@, vs);
                    keep_statement(a1, self.store(), stv, x);
                    if self.store().indexable() {
                        assert(stmt_is(self.store(), sr, x)) by {
                            reveal(stmt_is);
                            reveal(statement_is);
                        }
                        lemma_stmts_are_push(self.store(), srefs@, vs, sr, x);
                        lemma_stmts_step(t, before as int, self.at(), TokenKind::RPipeBracket, true);
                        assert(vs + stmts_tree(t, before as int, TokenKind::RPipeBracket, true).stmts
                            =~= vs.push(x) + stmts_tree(
                            t,
                            self.at(),
                            TokenKind::RPipeBracket,
                            true,
                        ).stmts);
                    }
                    vs = vs.push(x);
                }
                srefs.push(sr);
            }
            if self.pos <= before {
                return Err(String::from_str("stuck in process"));
            }
        }
        proof {
            if tail is None && self.store().indexable() {
                lemma_stmts_end(t, self.at(), TokenKind::RPipeBracket, true);
                assert(vs + Seq::<StmtView>::empty() =~= vs);
            }
        }
        self.expect(TokenKind::RPipeBracket)?;
        let ghost a2 = self.store();
        let ghost rv = srefs@;
        let ghost tl = tail;
        let b = self.arena.alloc_block(Block { stmts: srefs, tail });
        proof {
            lemma_grew2(old(self).store(), a2, self.store(), stmts_count(vs).plus(match tv { Some(x) => expr_count(*x), None => Sizes::none() }), one_block());
            if self.store().indexable() {
                assert(a2.indexable());
                lemma_placed_stmts_grow(a2, self.store(), old(self).store().sizes(), rv, vs);
                if tl is Some {
                    lemma_placed_expr_grow(a2, self.store(), old(self).store().sizes().plus(stmts_count(vs)), *(tv->0));
                }
                assert(placed_block(self.store(), old(self).store().sizes(), BlockView { stmts: vs, tail: tv })) by {
                    reveal(placed_expr);
                    reveal(placed_exprs);
                    reveal(placed_inits);
                    reveal(placed_block);
                    reveal(placed_stmts);
                    reveal(placed_statement);
                    reveal(placed_match);
                    reveal(placed_arms);
                }
            }
            keep_stmts(a2, self.store(), rv, vs);
            if tl is Some {
                keep_expr(a2, self.store(), tl->0, *(tv->0));
            }
            assert(self.holds_block(b, BlockView { stmts: vs, tail: tv })) by {
                reveal(block_is);
                reveal(stmts_are);
                reveal(expr_is);
            }
        }
        Ok(RootChild::Process(b))
    }

    /// Reads what follows `(` at the top level: an enum `(Name member..)` or a trait
    /// declaration `(name [signature..])`.
    #[verifier::spinoff_prover]
    #[verifier::rlimit(80)]
    fn parse_root_paren(&mut self) -> (r: Result<RootChild, String>)
        requires
            old(self).at() <= old(self).toks().len(),
        ensures
            final(self).follows(*old(self)),
            r is Ok ==> final(self).at() > old(self).at(),
            r is Ok ==> old(self).next_kind() == Some(TokenKind::LParen),
            r matches Ok(c) ==> (c is Enum || c is TraitDecl) && (final(self).store().indexable()
                ==> c.refs_ok(final(self).store().sizes())),
            agrees(r is Ok, root_paren_end(old(self).shape(), old(self).at()), final(self).at()),
            r matches Ok(RootChild::Enum(e)) ==> e.name.0@ == old(self).second_text(),
            r matches Ok(RootChild::TraitDecl(d)) ==> d.name.0@ == old(self).second_text(),
            r matches Ok(RootChild::Enum(_)) ==> kind_at(old(self).shape(), old(self).pos1())
                == Some(TokenKind::PascalIdent),
            r matches Ok(RootChild::TraitDecl(_)) ==> kind_at(old(self).shape(), old(self).pos1())
                == Some(TokenKind::CamelIdent),
            r matches Ok(RootChild::Enum(e)) ==> e.children@.len() == variants_count(
                old(self).shape(),
                old(self).pos2(),
            ),
            r matches Ok(RootChild::Enum(e)) ==> {
                let vs = variants_from(old(self).toks(), old(self).pos2());
                &&& vs.len() == e.children@.len()
                &&& final(self).store().indexable() ==> forall|k: int|
                    0 <= k < vs.len() ==> final(self).store().enum_children@[e.children@[k].0 as int].variant_view()
                        == #[trigger] vs[k]
            },
            r matches Ok(RootChild::TraitDecl(d)) ==> d.signatures@.len() == sigs_count(
                old(self).shape(),
                old(self).pos3(),
            ),
            r matches Ok(RootChild::Enum(e)) ==> final(self).added(
                *old(self),
                enum_children_n(e.children@.len()).plus(
                    struct_children_n(members_total(variants_from(old(self).toks(), old(self).pos2()))),
                ),
            ),
            r matches Ok(RootChild::Enum(e)) ==> (final(self).store().indexable() ==> forall|k: int| 0 <= k < e.children@.len() ==> #[trigger] e.children@[k].0 == old(self).store().sizes().enum_children + k),
            r matches Ok(RootChild::TraitDecl(d)) ==> final(self).added(
                *old(self),
                params_n(sig_params_total(old(self).toks(), sig_starts(old(self).shape(), old(self).pos3()))),
            ),
            r matches Ok(RootChild::TraitDecl(d)) ==> (final(self).store().indexable() ==> forall|j: int, i: int|
                #![trigger d.signatures@[j].params@[i]]
                0 <= j < d.signatures@.len() && 0 <= i < d.signatures@[j].params@.len() ==> d.signatures@[j].params@[i].0
                    == old(self).store().sizes().params + sig_params_total(
                    old(self).toks(),
                    sig_starts(old(self).shape(), old(self).pos3()).take(j),
                ) + i),
            r matches Ok(c) ==> (final(self).store().indexable() ==> root_holds(
                final(self).store(),
                c,
                old(self).toks(),
                old(self).at(),
            )),
            r matches Ok(RootChild::Enum(e)) ==> e.span == span_through(
                old(self).toks(),
                old(self).pos2(),
                final(self).at(),
            ),
            r matches Ok(RootChild::TraitDecl(d)) ==> d.span == span_through(
                old(self).toks(),
                old(self).pos2(),
                final(self).at(),
            ),
    {
        self.expect(TokenKind::LParen)?;
        match self.peek_kind() {
            Some(TokenKind::PascalIdent) => {
                let name = self.expect_pascal()?;
                let start = self.span_here().start;
                let mut refs: Vec<EnumChildRef> = Vec::new();
                let ghost mut done: Seq<VariantView> = Seq::empty();
                proof {
                    assert(variants_from(self.toks(), self.at()) =~= done + variants_from(
                        self.toks(),
                        self.at(),
                    ));
                }
                assert(grew(old(self).store(), self.store(), enum_children_n(refs@.len()).plus(struct_children_n(members_total(done)))));
                while !self.at_kind(TokenKind::RParen)
                    invariant
                        self.follows(*old(self)),
                        self.at() > old(self).at(),
                        self.store().indexable() ==> enum_children_below(
                            refs@,
                            self.store().sizes().enum_children,
                        ),
                        refs@.len() + variants_count(self.shape(), self.at()) == variants_count(
                            old(self).shape(),
                            old(self).pos2(),
                        ),
                        variants_from(old(self).toks(), old(self).pos2()) == done + variants_from(
                            self.toks(),
                            self.at(),
                        ),
                        done.len() == refs@.len(),
                        grew(old(self).store(), self.store(), enum_children_n(refs@.len()).plus(struct_children_n(members_total(done)))),
                        self.store().indexable() ==> forall|k: int| 0 <= k < refs@.len() ==> #[trigger] refs@[k].0 == old(self).store().sizes().enum_children + k,
                        self.store().indexable() ==> forall|k: int|
                            0 <= k < done.len() ==> self.store().enum_children@[refs@[k].0 as int].variant_view()
                                == #[trigger] done[k],
                        root_paren_end(old(self).shape(), old(self).at()) == match variants_end(
                            self.shape(),
                            self.at(),
                        ) {
                            Some(e) => tok(self.shape(), e, TokenKind::RParen),
                            None => None,
                        },
                    decreases self.toks().len() - self.at(),
                {
                    if self.at_end() {
                        return Err(String::from_str("unexpected EOF in enum"));
                    }
                    let before = self.pos;
                    let ghost at0 = self.at();
                    let ghost s0 = self.store();
                    let c = self.parse_enum_variant()?;
                    let ghost v = c.variant_view();
                    let ghost s1 = self.store();
                    let cr = self.arena.alloc_enum_child(c);
                    proof {
                        lemma_grew3(old(self).store(), s0, s1, self.store(), enum_children_n(refs@.len()).plus(struct_children_n(members_total(done))), struct_children_n(variant_members(v)), enum_children_n(1));
                        assert(done.push(v).drop_last() =~= done);
                        assert(members_total(done.push(v)) == members_total(done) + variant_members(v));
                        if self.store().indexable() {
                            assert(s0.indexable());
                            assert forall|k: int| 0 <= k < refs@.push(cr).len() implies #[trigger] refs@.push(cr)[k].0 == old(self).store().sizes().enum_children + k by {
                                if k < refs@.len() {
                                    assert(refs@.push(cr)[k] == refs@[k]);
                                }
                            }
                        }
                    }
                    refs.push(cr);
                    if self.pos <= before {
                        return Err(String::from_str("stuck in enum"));
                    }
                    proof {
                        let next = done.push(v);
                        assert(variants_from(self.toks(), at0) == seq![v] + variants_from(
                            self.toks(),
                            self.at(),
                        ));
                        assert(done + (seq![v] + variants_from(self.toks(), self.at())) =~= next
                            + variants_from(self.toks(), self.at()));
                        if self.store().indexable() {
                            assert(s1.indexable());
                            assert(s0.indexable());
                            assert forall|k: int| 0 <= k < next.len() implies self.store().enum_children@[refs@[k].0 as int].variant_view()
                                == #[trigger] next[k] by {
                                if k < done.len() {
                                    assert(s1.enum_children@[refs@[k].0 as int] == s0.enum_children@[refs@[k].0 as int]);
                                }
                            }
                        }
                        done = next;
                    }
                }
                self.expect(TokenKind::RParen)?;
                Ok(RootChild::Enum(EnumDef { name, children: refs, span: self.span_from(start) }))
            },
            Some(TokenKind::CamelIdent) => {
                let name = self.expect_camel()?;
                let start = self.span_here().start;
                self.expect(TokenKind::LBracket)?;
                let ghost t = self.toks();
                let ghost q1 = self.at();
                let mut sigs: Vec<MethodSig> = Vec::new();
                let ghost mut ss: Seq<int> = Seq::empty();
                assert(sig_starts(self.shape(), q1) =~= ss + sig_starts(self.shape(), self.at()));
                assert(grew(old(self).store(), self.store(), params_n(sig_params_total(t, ss))));
                while !self.at_kind(TokenKind::RBracket)
                    invariant
                        t == self.toks(),
                        q1 == after(self.shape(), after(self.shape(), after(self.shape(), old(self).at()))),
                        sig_starts(self.shape(), q1) == ss + sig_starts(self.shape(), self.at()),
                        ss.len() == sigs@.len(),
                        grew(old(self).store(), self.store(), params_n(sig_params_total(t, ss))),
                        self.store().indexable() ==> forall|j: int, i: int|
                            #![trigger sigs@[j].params@[i]]
                            0 <= j < sigs@.len() && 0 <= i < sigs@[j].params@.len() ==> sigs@[j].params@[i].0
                                == old(self).store().sizes().params + sig_params_total(t, ss.take(j)) + i,
                        self.store().indexable() ==> forall|j: int|
                            0 <= j < ss.len() ==> sig_holds(
                                self.store(),
                                #[trigger] sigs@[j],
                                t,
                                ss[j],
                            ),
                        self.follows(*old(self)),
                        self.at() > old(self).at(),
                        self.store().indexable() ==> forall|k: int|
                            0 <= k < sigs@.len() ==> (#[trigger] sigs@[k]).refs_ok(
                                self.store().sizes(),
                            ),
                        sigs@.len() + sigs_count(self.shape(), self.at()) == sigs_count(
                            old(self).shape(),
                            old(self).pos3(),
                        ),
                        root_paren_end(old(self).shape(), old(self).at()) == match sigs_end(
                            self.shape(),
                            self.at(),
                        ) {
                            Some(q2) => match tok(self.shape(), q2, TokenKind::RBracket) {
                                Some(e) => tok(self.shape(), e, TokenKind::RParen),
                                None => None,
                            },
                            None => None,
                        },
                    decreases self.toks().len() - self.at(),
                {
                    if self.at_end() {
                        return Err(String::from_str("unexpected EOF in trait decl"));
                    }
                    let ghost s0 = self.store().sizes();
                    let ghost a0 = self.store();
                    let ghost m0 = self.at();
                    let sig = self.parse_method_sig()?;
                    proof {
                        if self.store().indexable() {
                            assert forall|k: int| 0 <= k < sigs@.len() implies (
                            #[trigger] sigs@[k]).refs_ok(self.store().sizes()) by {
                                sigs@[k].lemma_grow(s0, self.store().sizes());
                            }
                            assert forall|j: int| 0 <= j < ss.len() implies sig_holds(
                                self.store(),
                                #[trigger] sigs@[j],
                                t,
                                ss[j],
                            ) by {
                                lemma_params_are_grow(
                                    a0,
                                    self.store(),
                                    sigs@[j].params@,
                                    sig_items_tree(
                                        t,
                                        after(self.shape(), after(self.shape(), ss[j])),
                                    ).0,
                                );
                            }
                        }
                        assert(sig_starts(self.shape(), m0) == seq![m0] + sig_starts(
                            self.shape(),
                            self.at(),
                        ));
                        assert(ss + sig_starts(self.shape(), m0) =~= ss.push(m0) + sig_starts(
                            self.shape(),
                            self.at(),
                        ));
                    }
                    let ghost old_sigs = sigs@;
                    proof {
                        lemma_grew2(old(self).store(), a0, self.store(), params_n(sig_params_total(t, ss)), params_n(sig_param_count(t, m0)));
                        assert(ss.push(m0).drop_last() =~= ss);
                        assert(sig_params_total(t, ss.push(m0)) == sig_params_total(t, ss) + sig_param_count(t, m0));
                        assert(params_n(sig_params_total(t, ss)).plus(params_n(sig_param_count(t, m0))) == params_n(sig_params_total(t, ss.push(m0))));
                    }
                    sigs.push(sig);
                    proof {
                        if self.store().indexable() {
                            assert(a0.indexable());
                            assert forall|j: int, i: int|
                                #![trigger sigs@[j].params@[i]]
                                0 <= j < sigs@.len() && 0 <= i < sigs@[j].params@.len() implies sigs@[j].params@[i].0
                                    == old(self).store().sizes().params + sig_params_total(t, ss.push(m0).take(j)) + i by {
                                if j < ss.len() {
                                    assert(sigs@[j] == old_sigs[j]);
                                    assert(ss.push(m0).take(j) =~= ss.take(j));
                                } else {
                                    assert(sigs@[j] == sig);
                                    assert(ss.push(m0).take(j) =~= ss);
                                }
                            }
                        }
                        assert forall|j: int| 0 <= j < ss.push(m0).len() implies (self.store().indexable()
                            ==> sig_holds(self.store(), #[trigger] sigs@[j], t, ss.push(m0)[j])) by {
                            if j < ss.len() {
                                assert(sigs@[j] == old_sigs[j]);
                            }
                        }
                        ss = ss.push(m0);
                    }
                }
                proof {
                    assert(sig_starts(self.shape(), self.at()) =~= Seq::<int>::empty());
                    assert(ss + Seq::<int>::empty() =~= ss);
                }
                self.expect(TokenKind::RBracket)?;
                self.expect(TokenKind::RParen)?;
                Ok(
                    RootChild::TraitDecl(
                        TraitDeclDef { name, signatures: sigs, span: self.span_from(start) },
                    ),
                )
            },
            _ => Err(unexpected_found("name after (", self.peek_tok())),
        }
    }

    /// Reads a top-level construct; which kind is decided by the next token.
    #[verifier::spinoff_prover]
    #[verifier::rlimit(80)]
    fn parse_root_child(&mut self) -> (r: Result<RootChild, String>)
        requires
            old(self).at() <= old(self).toks().len(),
        ensures
            final(self).follows(*old(self)),
            r is Ok ==> final(self).at() > old(self).at(),
            r matches Ok(c) ==> !(c is Module) && (final(self).store().indexable() ==> c.refs_ok(
                final(self).store().sizes(),
            )),
            r matches Ok(RootChild::Enum(_)) ==> old(self).next_kind() == Some(TokenKind::LParen),
            r matches Ok(RootChild::TraitDecl(_)) ==> old(self).next_kind() == Some(
                TokenKind::LParen,
            ),
            r matches Ok(RootChild::TraitImpl(_)) ==> old(self).next_kind() == Some(
                TokenKind::LBracket,
            ),
            r matches Ok(RootChild::Struct(_)) ==> old(self).next_kind() == Some(
                TokenKind::LBrace,
            ),
            r matches Ok(RootChild::Const(_)) ==> old(self).next_kind() == Some(
                TokenKind::LBracePipe,
            ),
            r matches Ok(RootChild::Ffi(_)) ==> old(self).next_kind() == Some(
                TokenKind::LParenPipe,
            ),
            r matches Ok(RootChild::Process(_)) ==> old(self).next_kind() == Some(
                TokenKind::LBracketPipe,
            ),
            r matches Ok(RootChild::Newtype(_)) ==> old(self).next_kind() == Some(
                TokenKind::PascalIdent,
            ),
            agrees(r is Ok, root_child_end(old(self).shape(), old(self).at()), final(self).at()),
            r matches Ok(RootChild::Enum(e)) ==> e.name.0@ == old(self).second_text(),
            r matches Ok(RootChild::TraitDecl(d)) ==> d.name.0@ == old(self).second_text(),
            r matches Ok(RootChild::Struct(d)) ==> d.name.0@ == old(self).second_text(),
            r matches Ok(RootChild::TraitImpl(i)) ==> i.trait_name.0@ == old(self).second_text(),
            r matches Ok(RootChild::Const(c)) ==> c.name.0@ == old(self).second_text(),
            r matches Ok(RootChild::Ffi(f)) ==> f.library.0@ == old(self).second_text(),
            r matches Ok(RootChild::Newtype(n)) ==> n.name.0@ == old(self).text_at(old(self).at()),
            r matches Ok(c) ==> c.root_view() == root_tree(old(self).toks(), old(self).at()),
            r matches Ok(RootChild::Enum(e)) ==> {
                let vs = variants_from(old(self).toks(), old(self).pos2());
                &&& vs.len() == e.children@.len()
                &&& final(self).store().indexable() ==> forall|k: int|
                    0 <= k < vs.len() ==> final(self).store().enum_children@[e.children@[k].0 as int].variant_view()
                        == #[trigger] vs[k]
            },
            r matches Ok(RootChild::Struct(d)) ==> {
                let ms = members_from(old(self).toks(), old(self).pos2());
                &&& ms.len() == d.children@.len()
                &&& final(self).store().indexable() ==> forall|k: int|
                    0 <= k < ms.len() ==> final(self).store().struct_children@[d.children@[k].0 as int].member_view()
                        == #[trigger] ms[k]
            },
            r matches Ok(RootChild::Newtype(n)) ==> n.wraps.view_type() == old(self).type_from(
                old(self).pos1(),
            ),
            r matches Ok(RootChild::Const(c)) ==> c.typ.view_type() == old(self).type_from(
                old(self).pos2(),
            ) && literal_of(c.value, old(self).tok_at(old(self).type_end_from(old(self).pos2()))),
            r matches Ok(c) ==> (final(self).store().indexable() ==> root_holds(
                final(self).store(),
                c,
                old(self).toks(),
                old(self).at(),
            )),
            r is Ok ==> final(self).added(*old(self), root_count(old(self).toks(), old(self).at())),
            r matches Ok(c) ==> (final(self).store().indexable() ==> root_placed(
                final(self).store(),
                old(self).store().sizes(),
                c,
                old(self).toks(),
                old(self).at(),
            )),
    {
        match self.peek_kind() {
            Some(TokenKind::LParen) => self.parse_root_paren(),
            Some(TokenKind::LBracket) => self.parse_trait_impl(),
            Some(TokenKind::LBrace) => {
                let (d, _) = self.parse_struct_def()?;
                Ok(RootChild::Struct(d))
            },
            Some(TokenKind::LBracePipe) => self.parse_const(),
            Some(TokenKind::LParenPipe) => self.parse_ffi(),
            Some(TokenKind::LBracketPipe) => self.parse_process(),
            Some(TokenKind::PascalIdent) => {
                let n = self.parse_newtype_def()?;
                Ok(RootChild::Newtype(n))
            },
            _ => Err(unexpected_found("root construct", self.peek_tok())),
        }
    }

    /// Reads a whole program: the module declaration, then top-level constructs until
    /// only newlines remain. On success the arena moves into the program and the
    /// parser is left with an empty one.
    #[verifier::spinoff_prover]
    #[verifier::rlimit(80)]
    pub fn parse_program(&mut self) -> (r: Result<AskiProgram, String>)
        requires
            old(self).at() <= old(self).toks().len(),
        ensures
            final(self).toks() == old(self).toks(),
            old(self).at() <= final(self).at() <= final(self).toks().len(),
            agrees(r is Ok, program_end(old(self).shape(), old(self).at()), final(self).at()),
            match r {
                Ok(prog) => {
                    &&& old(self).next_kind() == Some(TokenKind::LParen)
                    &&& final(self).next_kind() is None
                    &&& prog.children@.len() >= 1
                    &&& prog.children@[0] is Module
                    &&& prog.children@[0]->Module_0.name.0@ == old(self).second_text()
                    &&& prog.children@[0]->Module_0.span == span_through(
                        old(self).toks(),
                        old(self).at(),
                        module_end(old(self).shape(), old(self).at())->0,
                    )
                    &&& name_texts(prog.children@[0]->Module_0.exports@) == module_items_tree(
                        old(self).toks(),
                        old(self).pos2(),
                    ).0
                    &&& import_views(prog.children@[0]->Module_0.imports@) == module_items_tree(
                        old(self).toks(),
                        old(self).pos2(),
                    ).1
                    &&& root_views(prog.children@) == seq![RootView::Module(old(self).second_text())]
                        + roots_from(
                        old(self).toks(),
                        module_end(old(self).shape(), old(self).at())->0,
                    )
                    &&& prog.children@.len() == 1 + roots_count(
                        old(self).shape(),
                        module_end(old(self).shape(), old(self).at())->0,
                    )
                    &&& forall|k: int|
                        1 <= k < prog.children@.len() ==> !(#[trigger] prog.children@[k] is Module)
                    &&& prog.arena.extends(&old(self).store())
                    &&& (old(self).store().sound() ==> prog.arena.sound())
                    &&& (old(self).store().sound() && prog.arena.indexable() ==> prog.wf())
                    &&& final(self).store().is_empty()
                    &&& prog.arena.indexable() ==> forall|k: int|
                        1 <= k < prog.children@.len() ==> root_placed(
                            prog.arena,
                            old(self).store().sizes().plus(
                                roots_total(
                                    old(self).toks(),
                                    root_starts(old(self).shape(), module_end(old(self).shape(), old(self).at())->0).take(k - 1),
                                ),
                            ),
                            #[trigger] prog.children@[k],
                            old(self).toks(),
                            root_starts(old(self).shape(), module_end(old(self).shape(), old(self).at())->0)[k - 1],
                        )
                    &&& (prog.arena.indexable() ==> prog.arena.sizes() == old(self).store().sizes().plus(
                        roots_total(
                            old(self).toks(),
                            root_starts(old(self).shape(), module_end(old(self).shape(), old(self).at())->0),
                        ),
                    ))
                    &&& root_starts(
                        old(self).shape(),
                        module_end(old(self).shape(), old(self).at())->0,
                    ).len() + 1 == prog.children@.len()
                    &&& prog.arena.indexable() ==> forall|k: int|
                        1 <= k < prog.children@.len() ==> root_holds(
                            prog.arena,
                            #[trigger] prog.children@[k],
                            old(self).toks(),
                            root_starts(
                                old(self).shape(),
                                module_end(old(self).shape(), old(self).at())->0,
                            )[k - 1],
                        )
                },
                Err(_) => {
                    &&& final(self).store().extends(&old(self).store())
                    &&& (old(self).store().sound() ==> final(self).store().sound())
                },
            },
    {
        let mut children: Vec<RootChild> = Vec::new();
        let module = self.parse_module_decl()?;
        children.push(RootChild::Module(module));
        proof {
            assert(root_views(children@) =~= seq![RootView::Module(old(self).second_text())]);
        }
        let ghost t = self.toks();
        let ghost qm = self.at();
        let ghost mut rs: Seq<int> = Seq::empty();
        assert(root_starts(self.shape(), qm) =~= rs + root_starts(self.shape(), self.at()));
        assert(grew(old(self).store(), self.store(), roots_total(t, rs)));
        while !self.at_end()
            invariant
                t == self.toks(),
                qm == module_end(old(self).shape(), old(self).at())->0,
                rs.len() + 1 == children@.len(),
                grew(old(self).store(), self.store(), roots_total(t, rs)),
                self.store().indexable() ==> forall|k: int|
                    1 <= k < children@.len() ==> root_placed(
                        self.store(),
                        old(self).store().sizes().plus(roots_total(t, rs.take(k - 1))),
                        #[trigger] children@[k],
                        t,
                        rs[k - 1],
                    ),
                root_starts(self.shape(), qm) == rs + root_starts(self.shape(), self.at()),
                self.store().indexable() ==> forall|k: int|
                    1 <= k < children@.len() ==> root_holds(
                        self.store(),
                        #[trigger] children@[k],
                        t,
                        rs[k - 1],
                    ),
                self.follows(*old(self)),
                old(self).next_kind() == Some(TokenKind::LParen),
                children@.len() >= 1,
                children@[0] is Module,
                children@[0]->Module_0.name.0@ == old(self).second_text(),
                children@[0]->Module_0.span == span_through(
                    old(self).toks(),
                    old(self).at(),
                    module_end(old(self).shape(), old(self).at())->0,
                ),
                name_texts(children@[0]->Module_0.exports@) == module_items_tree(
                    old(self).toks(),
                    old(self).pos2(),
                ).0,
                import_views(children@[0]->Module_0.imports@) == module_items_tree(
                    old(self).toks(),
                    old(self).pos2(),
                ).1,
                forall|k: int| 1 <= k < children@.len() ==> !(#[trigger] children@[k] is Module),
                self.store().indexable() ==> forall|k: int|
                    0 <= k < children@.len() ==> (#[trigger] children@[k]).refs_ok(
                        self.store().sizes(),
                    ),
                seq![RootView::Module(old(self).second_text())] + roots_from(
                    old(self).toks(),
                    module_end(old(self).shape(), old(self).at())->0,
                ) == root_views(children@) + roots_from(self.toks(), self.at()),
                children@.len() + roots_count(self.shape(), self.at()) == 1 + roots_count(
                    old(self).shape(),
                    module_end(old(self).shape(), old(self).at())->0,
                ),
                program_end(old(self).shape(), old(self).at()) == roots_end(
                    self.shape(),
                    self.at(),
                ),
            decreases self.toks().len() - self.at(),
        {
            let before = self.pos;
            let ghost s0 = self.store().sizes();
            let ghost a0 = self.store();
            let ghost at0 = self.at();
            let ghost old_children = children@;
            let c = self.parse_root_child()?;
            let ghost cv = c.root_view();
            proof {
                lemma_grew2(old(self).store(), a0, self.store(), roots_total(t, rs), root_count(t, at0));
                assert(rs.push(at0).drop_last() =~= rs);
                if self.store().indexable() {
                    assert(a0.indexable());
                    assert forall|k: int| 1 <= k < old_children.len() implies root_placed(
                        self.store(),
                        old(self).store().sizes().plus(roots_total(t, rs.take(k - 1))),
                        #[trigger] old_children[k],
                        t,
                        rs[k - 1],
                    ) by {
                        lemma_root_placed_grow(a0, self.store(), old(self).store().sizes().plus(roots_total(t, rs.take(k - 1))), old_children[k], t, rs[k - 1]);
                    }
                }
                assert forall|k: int| 1 <= k < old_children.len() implies (self.store().indexable()
                    ==> root_holds(self.store(), #[trigger] old_children[k], t, rs[k - 1])) by {
                    keep_root(a0, self.store(), old_children[k], t, rs[k - 1]);
                }
                assert(root_starts(self.shape(), at0) == seq![at0] + root_starts(
                    self.shape(),
                    self.at(),
                ));
                assert(rs + root_starts(self.shape(), at0) =~= rs.push(at0) + root_starts(
                    self.shape(),
                    self.at(),
                ));
                if self.store().indexable() {
                    assert forall|k: int| 0 <= k < children@.len() implies (
                    #[trigger] children@[k]).refs_ok(self.store().sizes()) by {
                        children@[k].lemma_grow(s0, self.store().sizes());
                    }
                }
            }
            children.push(c);
            if self.pos <= before {
                let mut m = String::from_str("stuck at root pos ");
                let d = decimal(self.pos as u64);
                m.append(d.as_str());
                return Err(m);
            }
            proof {
                assert(roots_from(self.toks(), at0) == seq![cv] + roots_from(
                    self.toks(),
                    self.at(),
                ));
                assert(root_views(children@) =~= root_views(old_children).push(cv));
                assert(root_views(old_children) + (seq![cv] + roots_from(self.toks(), self.at()))
                    =~= root_views(children@) + roots_from(self.toks(), self.at()));
                assert forall|k: int| 1 <= k < children@.len() implies (self.store().indexable()
                    ==> root_holds(self.store(), #[trigger] children@[k], t, rs.push(at0)[k - 1]))
                    by {
                    if k < old_children.len() {
                        assert(children@[k] == old_children[k]);
                        assert(rs.push(at0)[k - 1] == rs[k - 1]);
                    }
                }
                assert forall|k: int| 1 <= k < children@.len() implies (self.store().indexable()
                    ==> root_placed(
                    self.store(),
                    old(self).store().sizes().plus(roots_total(t, rs.push(at0).take(k - 1))),
                    #[trigger] children@[k],
                    t,
                    rs.push(at0)[k - 1],
                )) by {
                    if k < old_children.len() {
                        assert(children@[k] == old_children[k]);
                        assert(rs.push(at0)[k - 1] == rs[k - 1]);
                        assert(rs.push(at0).take(k - 1) =~= rs.take(k - 1));
                    } else {
                        assert(rs.push(at0).take(k - 1) =~= rs);
                        assert(rs.push(at0)[k - 1] == at0);
                    }
                }
                rs = rs.push(at0);
            }
        }
        proof {
            assert(root_starts(self.shape(), self.at()) =~= Seq::<int>::empty());
            assert(rs + Seq::<int>::empty() =~= rs);
        }
        let mut arena = Arena::new();
        std::mem::swap(&mut arena, &mut self.arena);
        Ok(AskiProgram { children, arena })
    }
}

/// The messages of lexing errors, joined by ", ".
fn lex_failure(errs: &Vec<LexError>) -> (r: String)
    ensures
        r@ == lex_messages(errs@.map_values(|e: LexError| e.span.start as int)),
{
    let ghost starts = errs@.map_values(|e: LexError| e.span.start as int);
    let mut m = String::new();
    let mut i: usize = 0;
    assert(starts.take(0) =~= Seq::<int>::empty());
    while i < errs.len()
        invariant
            i <= errs@.len(),
            starts == errs@.map_values(|e: LexError| e.span.start as int),
            m@ == lex_messages(starts.take(i as int)),
        decreases errs@.len() - i,
    {
        let ghost before = m@;
        if i > 0 {
            m.append(", ");
        }
        let e = errs[i].message();
        m.append(e.as_str());
        proof {
            let next = starts.take(i + 1);
            assert(next.drop_last() =~= starts.take(i as int));
            assert(next.last() == errs@[i as int].span.start as int);
            if i == 0 {
                assert(m@ =~= lex_message(next[0]));
            } else {
                assert(m@ =~= before + ", "@ + lex_message(next.last()));
            }
        }
        i += 1;
    }
    assert(starts.take(errs@.len() as int) =~= starts);
    m
}

/// The shapes of the tokens that the lexer reads from `cs`: each token's kind, and
/// whether it is a PascalCase identifier spelled `Self`.
pub open spec fn source_shape(cs: Seq<char>) -> Seq<(TokenKind, bool)> {
    Seq::new(
        lex_tokens(cs).len(),
        |i: int|
            (
                lex_tokens(cs)[i].0,
                lex_tokens(cs)[i].0 == TokenKind::PascalIdent && cs.subrange(
                    lex_tokens(cs)[i].1,
                    lex_tokens(cs)[i].2,
                ) == seq!['S', 'e', 'l', 'f'],
            ),
    )
}

/// Tokens that the lexer reads from `cs`; all such agree on kinds and texts.
pub open spec fn lexed(cs: Seq<char>) -> Seq<Spanned> {
    choose|t: Seq<Spanned>| tokens_match(t, lex_tokens(cs), cs)
}

/// Two token sequences of the same shapes and identifier texts spell the same top-level
/// constructs.
proof fn lemma_roots_agree(t1: Seq<Spanned>, t2: Seq<Spanned>, q: int)
    requires
        shape_of(t1) == shape_of(t2),
        t1.len() == t2.len(),
        forall|i: int| 0 <= i < t1.len() ==> (#[trigger] t1[i]).token.spec_ident() == t2[i].token.spec_ident(),
    ensures
        roots_from(t1, q) == roots_from(t2, q),
    decreases t1.len() - q,
{
    let s = shape_of(t1);
    if 0 <= q <= t1.len() && kind_at(s, q) is Some {
        match root_child_end(s, q) {
            Some(r) => if q < r <= t1.len() {
                lemma_roots_agree(t1, t2, r);
                lemma_sig_in_range(s, q);
                lemma_sig_in_range(s, after(s, q));
                lemma_sig_in_range(s, after(s, after(s, q)));
            },
            None => {},
        }
    }
}

/// Two token sequences of the same shapes and identifier texts spell the same import
/// names.
proof fn lemma_names_agree(t1: Seq<Spanned>, t2: Seq<Spanned>, q: int)
    requires
        shape_of(t1) == shape_of(t2),
        t1.len() == t2.len(),
        forall|i: int| 0 <= i < t1.len() ==> (#[trigger] t1[i]).token.spec_ident() == t2[i].token.spec_ident(),
    ensures
        names_from(t1, q) == names_from(t2, q),
    decreases t1.len() - q,
{
    let s = shape_of(t1);
    lemma_sig_in_range(s, q);
    if 0 <= q <= t1.len() && kind_at(s, q) != Some(TokenKind::RBracket) {
        match ident(s, q) {
            Some(r) => if q < r <= t1.len() {
                lemma_names_agree(t1, t2, r);
            },
            None => {},
        }
    }
}

/// Two token sequences of the same shapes and identifier texts spell the same exports
/// and imports.
proof fn lemma_module_items_agree(t1: Seq<Spanned>, t2: Seq<Spanned>, q: int)
    requires
        shape_of(t1) == shape_of(t2),
        t1.len() == t2.len(),
        forall|i: int| 0 <= i < t1.len() ==> (#[trigger] t1[i]).token.spec_ident() == t2[i].token.spec_ident(),
    ensures
        module_items_tree(t1, q) == module_items_tree(t2, q),
    decreases t1.len() - q,
{
    let s = shape_of(t1);
    lemma_sig_in_range(s, q);
    if 0 <= q <= t1.len() && kind_at(s, q) != Some(TokenKind::RParen) && kind_at(s, q) is Some {
        if kind_at(s, q) == Some(TokenKind::LBracket) {
            lemma_sig_in_range(s, after(s, q));
            match tok(s, after(s, q), TokenKind::PascalIdent) {
                Some(q1) => {
                    lemma_names_agree(t1, t2, q1);
                    match names_end(s, q1) {
                        Some(q2) => match tok(s, q2, TokenKind::RBracket) {
                            Some(r) => if q < r <= t1.len() {
                                lemma_module_items_agree(t1, t2, r);
                            },
                            None => {},
                        },
                        None => {},
                    }
                },
                None => {},
            }
        } else {
            match ident(s, q) {
                Some(r) => if q < r <= t1.len() {
                    lemma_module_items_agree(t1, t2, r);
                },
                None => {},
            }
        }
    }
}

/// `sig` stays within the tokens.
proof fn lemma_sig_in_range(s: Seq<(TokenKind, bool)>, p: int)
    ensures
        0 <= p <= s.len() ==> p <= sig(s, p) <= s.len(),
        0 <= p <= s.len() ==> after(s, p) <= s.len(),
        0 <= p <= s.len() ==> p <= after(s, p),
    decreases s.len() - p,
{
    if 0 <= p < s.len() && s[p].0 == TokenKind::Newline {
        lemma_sig_in_range(s, p + 1);
    }
}

/// The module declaration of `prog` spans what the tokens `t` spell for it, and, where the
/// arena's indices fit in `u32`, every top-level construct after it holds what `t` spells
/// for it (see `root_holds`): spans, enum variants, struct members, wrapped and constant
/// types and values, signatures, foreign functions, method parameters, return types and
/// bodies, and the statement trees of processes; and the arena holds exactly as many
/// nodes of each kind as those constructs add.
pub open spec fn program_holds(prog: AskiProgram, t: Seq<Spanned>) -> bool {
    let s = shape_of(t);
    let starts = root_starts(s, module_end(s, 0)->0);
    &&& prog.children@.len() >= 1
    &&& prog.children@[0] is Module
    &&& prog.children@[0]->Module_0.span == span_through(t, 0, module_end(s, 0)->0)
    &&& starts.len() + 1 == prog.children@.len()
    &&& prog.arena.indexable() ==> prog.arena.sizes() == roots_total(t, starts)
    &&& prog.arena.indexable() ==> forall|k: int|
        1 <= k < prog.children@.len() ==> root_placed(
            prog.arena,
            roots_total(t, starts.take(k - 1)),
            #[trigger] prog.children@[k],
            t,
            starts[k - 1],
        )
    &&& prog.arena.indexable() ==> forall|k: int|
        1 <= k < prog.children@.len() ==> root_holds(
            prog.arena,
            #[trigger] prog.children@[k],
            t,
            starts[k - 1],
        )
}

/// Lexes and parses aski source. Source that does not lex is refused; source that lexes
/// is parsed exactly when its tokens form a program by the grammar. A parsed program
/// starts with its module declaration, and while its arena's indices fit in `u32`,
/// every reference in it points at a node of its arena, and each of its constructs holds
/// what the source's tokens spell for it, down to the expression trees of its bodies.
pub fn parse_source(source: &str) -> (r: Result<AskiProgram, String>)
    ensures
        lex_errors(source@).len() > 0 ==> r is Err,
        lex_errors(source@).len() > 0 ==> (r matches Err(m) && m@ == lex_messages(
            lex_errors(source@),
        )),
        lex_errors(source@).len() == 0 ==> (r is Ok <==> accepts(source_shape(source@))),
        r matches Ok(prog) ==> {
            &&& lex_errors(source@).len() == 0
            &&& name_texts(prog.children@[0]->Module_0.exports@) == module_items_tree(
                lexed(source@),
                after(source_shape(source@), after(source_shape(source@), 0)),
            ).0
            &&& import_views(prog.children@[0]->Module_0.imports@) == module_items_tree(
                lexed(source@),
                after(source_shape(source@), after(source_shape(source@), 0)),
            ).1
            &&& root_views(prog.children@) == seq![
                RootView::Module(text_of(lexed(source@), after(source_shape(source@), 0))),
            ] + roots_from(lexed(source@), module_end(source_shape(source@), 0)->0)
            &&& prog.children@.len() == 1 + roots_count(
                source_shape(source@),
                module_end(source_shape(source@), 0)->0,
            )
            &&& prog.children@[0] is Module
            &&& forall|k: int|
                1 <= k < prog.children@.len() ==> !(#[trigger] prog.children@[k] is Module)
            &&& (prog.arena.indexable() ==> prog.wf())
            &&& exists|t: Seq<Spanned>|
                tokens_match(t, lex_tokens(source@), source@) && #[trigger] program_holds(prog, t)
        },
{
    let tokens = match lex(source) {
        Ok(t) => t,
        Err(errs) => {
            proof {
                assert(errs@.map_values(|e: LexError| e.span.start as int) =~= lex_errors(source@));
            }
            return Err(lex_failure(&errs));
        },
    };
    proof {
        assert(shape_of(tokens@) =~= source_shape(source@));
        let t2 = lexed(source@);
        assert(tokens_match(t2, lex_tokens(source@), source@));
        assert(shape_of(t2) =~= source_shape(source@));
        assert forall|i: int| 0 <= i < tokens@.len() implies (#[trigger] tokens@[i]).token.spec_ident()
            == t2[i].token.spec_ident() by {
            assert(tokens_match(tokens@, lex_tokens(source@), source@));
        }
        lemma_roots_agree(tokens@, t2, module_end(source_shape(source@), 0)->0);
        lemma_module_items_agree(
            tokens@,
            t2,
            after(source_shape(source@), after(source_shape(source@), 0)),
        );
        lemma_sig_in_range(source_shape(source@), 0);
        lemma_sig_in_range(source_shape(source@), after(source_shape(source@), 0));
    }
    let ghost t = tokens@;
    let mut parser = Parser::new(tokens.as_slice());
    let r = parser.parse_program();
    proof {
        if r is Ok {
            assert(tokens_match(t, lex_tokens(source@), source@));
            assert(program_holds(r->Ok_0, t));
        }
    }
    r
}

} // verus!
