use askic::codegen::CodegenOutput;
use askic::domain::{
    Arena, AskiProgram, Block, Expr, ExprRef, Name, Param, Span, Statement, StmtRef,
};
use askic::text::decimal;

#[test]
fn arena_alloc_returns_the_index_it_stored_at() {
    let mut a = Arena::new();
    let sp = Span { start: 0, end: 1 };
    let x = a.alloc_expr(Expr::IntLit { value: 1, span: sp });
    let y = a.alloc_expr(Expr::IntLit { value: 2, span: sp });
    let z = a.alloc_expr(Expr::BinAdd { left: x, right: y, span: sp });
    assert_eq!((x, y, z), (ExprRef(0), ExprRef(1), ExprRef(2)));
    assert!(matches!(a.exprs[y.idx()], Expr::IntLit { value: 2, .. }));
    let s = a.alloc_stmt(Statement::Expr(z));
    assert_eq!(s, StmtRef(0));
    let b = a.alloc_block(Block { stmts: vec![s], tail: None });
    assert_eq!(b.idx(), 0);
    let p = a.alloc_param(Param::OwnedSelf);
    assert_eq!(p.idx(), 0);
    assert_eq!(a.exprs.len(), 3);
    assert!(a.matches.is_empty());
}

#[test]
fn defaults_are_empty() {
    let a = Arena::default();
    assert!(a.exprs.is_empty() && a.params.is_empty());
    let p = AskiProgram::default();
    assert!(p.children.is_empty());
    assert!(p.arena.blocks.is_empty());
}

#[test]
fn name_and_duplicate() {
    let n = Name::new("Element");
    assert_eq!(n.0, "Element");
    assert_eq!(n.duplicate(), n);
}

#[test]
fn decimal_rendering() {
    assert_eq!(decimal(0), "0");
    assert_eq!(decimal(7), "7");
    assert_eq!(decimal(1234), "1234");
    assert_eq!(decimal(u64::MAX), "18446744073709551615");
}

#[test]
fn codegen_output_holds_source() {
    let out = CodegenOutput { source: "pub enum Element {}".to_string() };
    assert_eq!(out.source.len(), 19);
}
