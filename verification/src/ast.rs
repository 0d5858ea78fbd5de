//! The trees that the parser stores in its arena, read back as plain values: every
//! reference is replaced by what it refers to, every name by its text.
use vstd::prelude::*;
use crate::domain::{
    Arena, BlockRef, Expr, ExprRef, FieldInitRef, MatchArmRef, MatchRef, MethodBody, Param,
    ParamRef, Pattern, Span, Statement, TypeExpr,
    StmtRef, TypeView, name_texts, Sizes,
};
use crate::token::TokenKind;

verus! {

/// What a match pattern says.
pub enum PatternView {
    Variant(Seq<char>),
    Bind(Seq<char>, Seq<char>),
    Either(Seq<Seq<char>>),
    Str(Seq<char>),
}

/// An expression, with its operands in place. A binary expression carries the kind of
/// its operator token; a node that records where it was read carries that span.
pub enum ExprView {
    Binary(TokenKind, Box<ExprView>, Box<ExprView>, Span),
    Field(Box<ExprView>, Seq<char>, Span),
    Call(Box<ExprView>, Seq<char>, Seq<ExprView>, Span),
    Try(Box<ExprView>, Span),
    Instance(Seq<char>, Span),
    Variant(Seq<char>, Seq<char>, Span),
    PathCall(Seq<char>, Seq<char>, Seq<ExprView>, Span),
    Int(i64, Span),
    Float(Seq<char>, Span),
    Str(Seq<char>, Span),
    Eval(BlockView),
    Match(MatchView),
    Loop(BlockView),
    Iterate(Box<ExprView>, BlockView),
    Construct(Seq<char>, Seq<(Seq<char>, ExprView)>, Span),
}

/// A block: its statements, and the expression it ends with, if any.
pub struct BlockView {
    pub stmts: Seq<StmtView>,
    pub tail: Option<Box<ExprView>>,
}

/// A match: its target, if any, and its arms, each with its patterns and its result.
pub struct MatchView {
    pub target: Option<Box<ExprView>>,
    pub arms: Seq<(Seq<PatternView>, ExprView)>,
}

/// A statement.
pub enum StmtView {
    Return(ExprView),
    Loop(BlockView),
    Iterate(ExprView, BlockView),
    TypeDecl(Seq<char>, TypeView, Span),
    Mutate(Seq<char>, Seq<char>, Seq<ExprView>, Span),
    Instance(Seq<char>, Option<TypeView>, ExprView, Span),
    Expr(ExprView),
}

impl Pattern {
    /// What this pattern says.
    pub open spec fn view_pattern(&self) -> PatternView {
        match self {
            Pattern::Variant(n) => PatternView::Variant(n.0@),
            Pattern::VariantBind { variant, binding } => PatternView::Bind(variant.0@, binding.0@),
            Pattern::OrPattern(ns) => PatternView::Either(name_texts(ns@)),
            Pattern::StringLit(s) => PatternView::Str(s@),
        }
    }
}

/// What each of `ps` says.
pub open spec fn pattern_views(ps: Seq<Pattern>) -> Seq<PatternView> {
    ps.map_values(|p: Pattern| p.view_pattern())
}

/// The operator token kind of a binary expression node, with its two operands and its
/// span.
pub open spec fn binary_parts(e: Expr) -> Option<(TokenKind, ExprRef, ExprRef, Span)> {
    match e {
        Expr::BinAdd { left, right, span } => Some((TokenKind::Plus, left, right, span)),
        Expr::BinSub { left, right, span } => Some((TokenKind::Minus, left, right, span)),
        Expr::BinMul { left, right, span } => Some((TokenKind::Star, left, right, span)),
        Expr::BinMod { left, right, span } => Some((TokenKind::Percent, left, right, span)),
        Expr::BinEq { left, right, span } => Some((TokenKind::DoubleEquals, left, right, span)),
        Expr::BinNotEq { left, right, span } => Some((TokenKind::NotEqual, left, right, span)),
        Expr::BinLt { left, right, span } => Some((TokenKind::LessThan, left, right, span)),
        Expr::BinGt { left, right, span } => Some((TokenKind::GreaterThan, left, right, span)),
        Expr::BinLtEq { left, right, span } => Some((TokenKind::LessThanOrEqual, left, right, span)),
        Expr::BinGtEq { left, right, span } => Some((TokenKind::GreaterThanOrEqual, left, right, span)),
        Expr::BinAnd { left, right, span } => Some((TokenKind::LogicalAnd, left, right, span)),
        Expr::BinOr { left, right, span } => Some((TokenKind::LogicalOr, left, right, span)),
        _ => None,
    }
}

/// Each binary node answers to the operator token written for it, and only to that one:
/// a node read as `<` is a `BinLt`, `>` a `BinGt`, and so on for every operator, with its
/// left operand first.
pub proof fn law_binary_operator_table(e: Expr)
    ensures
        (binary_parts(e) matches Some((k, _, _, _)) && k == TokenKind::Plus) <==> e is BinAdd,
        (binary_parts(e) matches Some((k, _, _, _)) && k == TokenKind::Minus) <==> e is BinSub,
        (binary_parts(e) matches Some((k, _, _, _)) && k == TokenKind::Star) <==> e is BinMul,
        (binary_parts(e) matches Some((k, _, _, _)) && k == TokenKind::Percent) <==> e is BinMod,
        (binary_parts(e) matches Some((k, _, _, _)) && k == TokenKind::DoubleEquals) <==> e is BinEq,
        (binary_parts(e) matches Some((k, _, _, _)) && k == TokenKind::NotEqual) <==> e is BinNotEq,
        (binary_parts(e) matches Some((k, _, _, _)) && k == TokenKind::LessThan) <==> e is BinLt,
        (binary_parts(e) matches Some((k, _, _, _)) && k == TokenKind::GreaterThan) <==> e is BinGt,
        (binary_parts(e) matches Some((k, _, _, _)) && k == TokenKind::LessThanOrEqual) <==> e is BinLtEq,
        (binary_parts(e) matches Some((k, _, _, _)) && k == TokenKind::GreaterThanOrEqual) <==> e is BinGtEq,
        (binary_parts(e) matches Some((k, _, _, _)) && k == TokenKind::LogicalAnd) <==> e is BinAnd,
        (binary_parts(e) matches Some((k, _, _, _)) && k == TokenKind::LogicalOr) <==> e is BinOr,
        binary_parts(e) matches Some((_, l, r, _)) ==> match e {
            Expr::BinAdd { left, right, .. } => l == left && r == right,
            Expr::BinSub { left, right, .. } => l == left && r == right,
            Expr::BinMul { left, right, .. } => l == left && r == right,
            Expr::BinMod { left, right, .. } => l == left && r == right,
            Expr::BinEq { left, right, .. } => l == left && r == right,
            Expr::BinNotEq { left, right, .. } => l == left && r == right,
            Expr::BinLt { left, right, .. } => l == left && r == right,
            Expr::BinGt { left, right, .. } => l == left && r == right,
            Expr::BinLtEq { left, right, .. } => l == left && r == right,
            Expr::BinGtEq { left, right, .. } => l == left && r == right,
            Expr::BinAnd { left, right, .. } => l == left && r == right,
            Expr::BinOr { left, right, .. } => l == left && r == right,
            _ => false,
        },
{
}

/// The expression at `e` in `a` is the tree `v`.
#[verifier::opaque]
pub open spec fn expr_is(a: Arena, e: ExprRef, v: ExprView) -> bool
    decreases v, 0nat,
{
    &&& e.0 < a.exprs@.len()
    &&& match v {
        ExprView::Binary(op, l, r, sp) => match binary_parts(a.exprs@[e.0 as int]) {
            Some((k, x, y, z)) => k == op && z == sp && expr_is(a, x, *l) && expr_is(a, y, *r),
            None => false,
        },
        ExprView::Field(o, f, sp) => a.exprs@[e.0 as int] matches Expr::FieldAccess {
            object,
            field,
            span,
        } && field.0@ == f && span == sp && expr_is(a, object, *o),
        ExprView::Call(o, m, args, sp) => a.exprs@[e.0 as int] matches Expr::MethodCall {
            object,
            method,
            args: refs,
            span,
        } && method.0@ == m && span == sp && expr_is(a, object, *o) && exprs_are(a, refs@, args),
        ExprView::Try(i, sp) => a.exprs@[e.0 as int] matches Expr::TryUnwrap { inner, span }
            && span == sp && expr_is(a, inner, *i),
        ExprView::Instance(n, sp) => a.exprs@[e.0 as int] matches Expr::InstanceRef { name, span }
            && name.0@ == n && span == sp,
        ExprView::Variant(ty, va, sp) => a.exprs@[e.0 as int] matches Expr::PathVariant {
            typ,
            variant,
            span,
        } && typ.0@ == ty && variant.0@ == va && span == sp,
        ExprView::PathCall(ty, m, args, sp) => a.exprs@[e.0 as int] matches Expr::PathMethod {
            typ,
            method,
            args: refs,
            span,
        } && typ.0@ == ty && method.0@ == m && span == sp && exprs_are(a, refs@, args),
        ExprView::Int(n, sp) => a.exprs@[e.0 as int] matches Expr::IntLit { value, span }
            && value == n && span == sp,
        ExprView::Float(x, sp) => a.exprs@[e.0 as int] matches Expr::FloatLit { value, span }
            && value@ == x && span == sp,
        ExprView::Str(x, sp) => a.exprs@[e.0 as int] matches Expr::StringLit { value, span }
            && value@ == x && span == sp,
        ExprView::Eval(bv) => a.exprs@[e.0 as int] matches Expr::InlineEval(b) && block_is(
            a,
            b,
            bv,
        ),
        ExprView::Match(mv) => a.exprs@[e.0 as int] matches Expr::Match(m) && match_is(a, m, mv),
        ExprView::Loop(bv) => a.exprs@[e.0 as int] matches Expr::Loop(b) && block_is(a, b, bv),
        ExprView::Iterate(x, bv) => a.exprs@[e.0 as int] matches Expr::Iteration {
            source,
            body,
        } && expr_is(a, source, *x) && block_is(a, body, bv),
        ExprView::Construct(ty, fs, sp) => a.exprs@[e.0 as int] matches Expr::StructConstruct {
            typ,
            fields,
            span,
        } && typ.0@ == ty && span == sp && inits_are(a, fields@, fs),
    }
}

/// The expressions at `refs` in `a` are the trees `vs`, in order.
#[verifier::opaque]
pub open spec fn exprs_are(a: Arena, refs: Seq<ExprRef>, vs: Seq<ExprView>) -> bool
    decreases vs, 0nat,
{
    &&& refs.len() == vs.len()
    &&& forall|i: int| 0 <= i < vs.len() ==> expr_is(a, #[trigger] refs[i], vs[i])
}

/// The field initializers at `refs` in `a` are the named trees `vs`, in order.
#[verifier::opaque]
pub open spec fn inits_are(a: Arena, refs: Seq<FieldInitRef>, vs: Seq<(Seq<char>, ExprView)>) -> bool
    decreases vs, 0nat,
{
    &&& refs.len() == vs.len()
    &&& forall|i: int|
        0 <= i < vs.len() ==> {
            &&& (#[trigger] refs[i]).0 < a.field_inits@.len()
            &&& a.field_inits@[refs[i].0 as int].name.0@ == vs[i].0
            &&& expr_is(a, a.field_inits@[refs[i].0 as int].value, vs[i].1)
        }
}

/// The block at `b` in `a` is the tree `v`.
#[verifier::opaque]
pub open spec fn block_is(a: Arena, b: BlockRef, v: BlockView) -> bool
    decreases v, 0nat,
{
    &&& b.0 < a.blocks@.len()
    &&& stmts_are(a, a.blocks@[b.0 as int].stmts@, v.stmts)
    &&& match (a.blocks@[b.0 as int].tail, v.tail) {
        (None, None) => true,
        (Some(e), Some(x)) => expr_is(a, e, *x),
        _ => false,
    }
}

/// The statements at `refs` in `a` are the trees `vs`, in order.
#[verifier::opaque]
pub open spec fn stmts_are(a: Arena, refs: Seq<StmtRef>, vs: Seq<StmtView>) -> bool
    decreases vs, 0nat,
{
    &&& refs.len() == vs.len()
    &&& forall|i: int| 0 <= i < vs.len() ==> stmt_is(a, #[trigger] refs[i], vs[i])
}

/// The statement at `r` in `a` is the tree `v`.
#[verifier::opaque]
pub open spec fn stmt_is(a: Arena, r: StmtRef, v: StmtView) -> bool
    decreases v, 1nat,
{
    r.0 < a.stmts@.len() && statement_is(a, a.stmts@[r.0 as int], v)
}

/// The statement `st`, whose references point into `a`, is the tree `v`.
#[verifier::opaque]
pub open spec fn statement_is(a: Arena, st: Statement, v: StmtView) -> bool
    decreases v, 0nat,
{
    match v {
        StmtView::Return(x) => st matches Statement::EarlyReturn(e) && expr_is(a, e, x),
        StmtView::Loop(bv) => st matches Statement::Loop(b) && block_is(a, b, bv),
        StmtView::Iterate(x, bv) => st matches Statement::Iteration { source, body } && expr_is(
            a,
            source,
            x,
        ) && block_is(a, body, bv),
        StmtView::TypeDecl(n, ty, sp) => st matches Statement::LocalTypeDecl { name, typ, span }
            && name.0@ == n && typ.view_type() == ty && span == sp,
        StmtView::Mutate(n, m, args, sp) => st matches Statement::Mutation {
            name,
            method,
            args: refs,
            span,
        } && name.0@ == n && method.0@ == m && span == sp && exprs_are(a, refs@, args),
        StmtView::Instance(n, ta, x, sp) => st matches Statement::Instance {
            name,
            type_annotation,
            value,
            span,
        } && name.0@ == n && span == sp && match type_annotation {
            Some(t) => ta == Some(t.view_type()),
            None => ta is None,
        } && expr_is(a, value, x),
        StmtView::Expr(x) => st matches Statement::Expr(e) && expr_is(a, e, x),
    }
}

/// The match at `m` in `a` is the tree `v`.
#[verifier::opaque]
pub open spec fn match_is(a: Arena, m: MatchRef, v: MatchView) -> bool
    decreases v, 0nat,
{
    &&& m.0 < a.matches@.len()
    &&& match (a.matches@[m.0 as int].target, v.target) {
        (None, None) => true,
        (Some(e), Some(x)) => expr_is(a, e, *x),
        _ => false,
    }
    &&& arms_are(a, a.matches@[m.0 as int].arms@, v.arms)
}

/// The match arms at `refs` in `a` are the trees `vs`, in order.
#[verifier::opaque]
pub open spec fn arms_are(a: Arena, refs: Seq<MatchArmRef>, vs: Seq<(Seq<PatternView>, ExprView)>) -> bool
    decreases vs, 0nat,
{
    &&& refs.len() == vs.len()
    &&& forall|i: int|
        0 <= i < vs.len() ==> {
            &&& (#[trigger] refs[i]).0 < a.match_arms@.len()
            &&& pattern_views(a.match_arms@[refs[i].0 as int].patterns@) == vs[i].0
            &&& expr_is(a, a.match_arms@[refs[i].0 as int].result, vs[i].1)
        }
}

/// One expr and nothing else.
pub open spec fn one_expr() -> Sizes {
    Sizes {
        exprs: 1,
        stmts: 0,
        blocks: 0,
        matches: 0,
        field_inits: 0,
        enum_children: 0,
        struct_children: 0,
        method_defs: 0,
        match_arms: 0,
        params: 0,
    }
}

/// One stmt and nothing else.
pub open spec fn one_stmt() -> Sizes {
    Sizes {
        exprs: 0,
        stmts: 1,
        blocks: 0,
        matches: 0,
        field_inits: 0,
        enum_children: 0,
        struct_children: 0,
        method_defs: 0,
        match_arms: 0,
        params: 0,
    }
}

/// One block and nothing else.
pub open spec fn one_block() -> Sizes {
    Sizes {
        exprs: 0,
        stmts: 0,
        blocks: 1,
        matches: 0,
        field_inits: 0,
        enum_children: 0,
        struct_children: 0,
        method_defs: 0,
        match_arms: 0,
        params: 0,
    }
}

/// One match and nothing else.
pub open spec fn one_match() -> Sizes {
    Sizes {
        exprs: 0,
        stmts: 0,
        blocks: 0,
        matches: 1,
        field_inits: 0,
        enum_children: 0,
        struct_children: 0,
        method_defs: 0,
        match_arms: 0,
        params: 0,
    }
}

/// One init and nothing else.
pub open spec fn one_init() -> Sizes {
    Sizes {
        exprs: 0,
        stmts: 0,
        blocks: 0,
        matches: 0,
        field_inits: 1,
        enum_children: 0,
        struct_children: 0,
        method_defs: 0,
        match_arms: 0,
        params: 0,
    }
}

/// One arm and nothing else.
pub open spec fn one_arm() -> Sizes {
    Sizes {
        exprs: 0,
        stmts: 0,
        blocks: 0,
        matches: 0,
        field_inits: 0,
        enum_children: 0,
        struct_children: 0,
        method_defs: 0,
        match_arms: 1,
        params: 0,
    }
}

/// How many nodes of each kind the arena gains when the expression `v` is stored: one
/// for each node of the tree, the node itself last.
pub open spec fn expr_count(v: ExprView) -> Sizes
    decreases v, 1nat,
{
    match v {
        ExprView::Binary(_, l, r, _) => expr_count(*l).plus(expr_count(*r)).plus(one_expr()),
        ExprView::Field(o, _, _) => expr_count(*o).plus(one_expr()),
        ExprView::Call(o, _, args, _) => expr_count(*o).plus(exprs_count(args)).plus(one_expr()),
        ExprView::Try(i, _) => expr_count(*i).plus(one_expr()),
        ExprView::PathCall(_, _, args, _) => exprs_count(args).plus(one_expr()),
        ExprView::Eval(bv) => block_count(bv).plus(one_expr()),
        ExprView::Match(mv) => match_count(mv).plus(one_expr()),
        ExprView::Loop(bv) => block_count(bv).plus(one_expr()),
        ExprView::Iterate(x, bv) => expr_count(*x).plus(block_count(bv)).plus(one_expr()),
        ExprView::Construct(_, fs, _) => inits_count(fs).plus(one_expr()),
        _ => one_expr(),
    }
}

/// The nodes the expressions `vs` add, together.
pub open spec fn exprs_count(vs: Seq<ExprView>) -> Sizes
    decreases vs, 0nat,
{
    if vs.len() == 0 {
        Sizes::none()
    } else {
        exprs_count(vs.drop_last()).plus(expr_count(vs.last()))
    }
}

/// The nodes the field initializers `vs` add: each value, then the initializer.
pub open spec fn inits_count(vs: Seq<(Seq<char>, ExprView)>) -> Sizes
    decreases vs, 0nat,
{
    if vs.len() == 0 {
        Sizes::none()
    } else {
        inits_count(vs.drop_last()).plus(expr_count(vs.last().1)).plus(one_init())
    }
}

/// The nodes the block `v` adds: its statements, its tail, then the block.
pub open spec fn block_count(v: BlockView) -> Sizes
    decreases v, 1nat,
{
    stmts_count(v.stmts).plus(
        match v.tail {
            Some(x) => expr_count(*x),
            None => Sizes::none(),
        },
    ).plus(one_block())
}

/// The nodes the statements `vs` add, each statement stored after what it refers to.
pub open spec fn stmts_count(vs: Seq<StmtView>) -> Sizes
    decreases vs, 0nat,
{
    if vs.len() == 0 {
        Sizes::none()
    } else {
        stmts_count(vs.drop_last()).plus(statement_count(vs.last())).plus(one_stmt())
    }
}

/// The nodes a statement `v` refers to, not counting the statement itself.
pub open spec fn statement_count(v: StmtView) -> Sizes
    decreases v, 1nat,
{
    match v {
        StmtView::Return(x) => expr_count(x),
        StmtView::Loop(bv) => block_count(bv),
        StmtView::Iterate(x, bv) => expr_count(x).plus(block_count(bv)),
        StmtView::TypeDecl(..) => Sizes::none(),
        StmtView::Mutate(_, _, args, _) => exprs_count(args),
        StmtView::Instance(_, _, x, _) => expr_count(x),
        StmtView::Expr(x) => expr_count(x),
    }
}

/// The nodes the match `v` adds: its target, its arms, then the match.
pub open spec fn match_count(v: MatchView) -> Sizes
    decreases v, 1nat,
{
    match v.target {
        Some(x) => expr_count(*x),
        None => Sizes::none(),
    }.plus(arms_count(v.arms)).plus(one_match())
}

/// The nodes the arms `vs` add: each result, then the arm.
pub open spec fn arms_count(vs: Seq<(Seq<PatternView>, ExprView)>) -> Sizes
    decreases vs, 0nat,
{
    if vs.len() == 0 {
        Sizes::none()
    } else {
        arms_count(vs.drop_last()).plus(expr_count(vs.last().1)).plus(one_arm())
    }
}

/// The index at which the expression `v`, stored from the counts `z` on, ends up: the
/// last of the expressions it adds.
pub open spec fn expr_slot(z: Sizes, v: ExprView) -> int {
    z.exprs + expr_count(v).exprs - 1
}

/// The index at which the block `v`, stored from the counts `z` on, ends up.
pub open spec fn block_slot(z: Sizes, v: BlockView) -> int {
    z.blocks + block_count(v).blocks - 1
}

/// The index at which the match `v`, stored from the counts `z` on, ends up.
pub open spec fn match_slot(z: Sizes, v: MatchView) -> int {
    z.matches + match_count(v).matches - 1
}

/// The nodes an optional expression adds.
pub open spec fn opt_count(x: Option<Box<ExprView>>) -> Sizes {
    match x {
        Some(e) => expr_count(*e),
        None => Sizes::none(),
    }
}

/// The expression `v` was stored in `a` in reading order from the counts `z` on: each
/// operand from where the one before it ended, each node after what it refers to, so
/// that every reference of the tree points at the index that order gives.
#[verifier::opaque]
pub open spec fn placed_expr(a: Arena, z: Sizes, v: ExprView) -> bool
    decreases v, 1nat,
{
    let i = expr_slot(z, v);
    &&& 0 <= i < a.exprs@.len()
    &&& match v {
        ExprView::Binary(_, l, r, _) => match binary_parts(a.exprs@[i]) {
            Some((_, x, y, _)) => x.0 == expr_slot(z, *l) && y.0 == expr_slot(
                z.plus(expr_count(*l)),
                *r,
            ) && placed_expr(a, z, *l) && placed_expr(a, z.plus(expr_count(*l)), *r),
            None => false,
        },
        ExprView::Field(o, _, _) => a.exprs@[i] matches Expr::FieldAccess { object, .. }
            && object.0 == expr_slot(z, *o) && placed_expr(a, z, *o),
        ExprView::Call(o, _, args, _) => a.exprs@[i] matches Expr::MethodCall {
            object,
            args: refs,
            ..
        } && object.0 == expr_slot(z, *o) && placed_expr(a, z, *o) && placed_exprs(
            a,
            z.plus(expr_count(*o)),
            refs@,
            args,
        ),
        ExprView::Try(x, _) => a.exprs@[i] matches Expr::TryUnwrap { inner, .. } && inner.0
            == expr_slot(z, *x) && placed_expr(a, z, *x),
        ExprView::PathCall(_, _, args, _) => a.exprs@[i] matches Expr::PathMethod {
            args: refs,
            ..
        } && placed_exprs(a, z, refs@, args),
        ExprView::Eval(bv) => a.exprs@[i] matches Expr::InlineEval(b) && b.0 == block_slot(z, bv)
            && placed_block(a, z, bv),
        ExprView::Match(mv) => a.exprs@[i] matches Expr::Match(m) && m.0 == match_slot(z, mv)
            && placed_match(a, z, mv),
        ExprView::Loop(bv) => a.exprs@[i] matches Expr::Loop(b) && b.0 == block_slot(z, bv)
            && placed_block(a, z, bv),
        ExprView::Iterate(x, bv) => a.exprs@[i] matches Expr::Iteration { source, body }
            && source.0 == expr_slot(z, *x) && placed_expr(a, z, *x) && body.0 == block_slot(
            z.plus(expr_count(*x)),
            bv,
        ) && placed_block(a, z.plus(expr_count(*x)), bv),
        ExprView::Construct(_, fs, _) => a.exprs@[i] matches Expr::StructConstruct {
            fields,
            ..
        } && placed_inits(a, z, fields@, fs),
        _ => true,
    }
}

/// The expressions `vs`, referred to by `refs`, were stored one after another in reading
/// order from the counts `z` on.
#[verifier::opaque]
pub open spec fn placed_exprs(a: Arena, z: Sizes, refs: Seq<ExprRef>, vs: Seq<ExprView>) -> bool
    decreases vs, 0nat,
{
    &&& refs.len() == vs.len()
    &&& vs.len() > 0 ==> {
        let zl = z.plus(exprs_count(vs.drop_last()));
        &&& placed_exprs(a, z, refs.drop_last(), vs.drop_last())
        &&& refs.last().0 == expr_slot(zl, vs.last())
        &&& placed_expr(a, zl, vs.last())
    }
}

/// The field initializers `vs`, referred to by `refs`, were stored one after another in
/// reading order from the counts `z` on, each after its value.
#[verifier::opaque]
pub open spec fn placed_inits(a: Arena, z: Sizes, refs: Seq<FieldInitRef>, vs: Seq<(Seq<char>, ExprView)>) -> bool
    decreases vs, 0nat,
{
    &&& refs.len() == vs.len()
    &&& vs.len() > 0 ==> {
        let zl = z.plus(inits_count(vs.drop_last()));
        let k = zl.plus(expr_count(vs.last().1)).field_inits;
        &&& placed_inits(a, z, refs.drop_last(), vs.drop_last())
        &&& refs.last().0 == k
        &&& k < a.field_inits@.len()
        &&& a.field_inits@[k as int].value.0 == expr_slot(zl, vs.last().1)
        &&& placed_expr(a, zl, vs.last().1)
    }
}

/// The block `v` was stored in reading order from the counts `z` on: its statements,
/// its tail, then the block.
#[verifier::opaque]
pub open spec fn placed_block(a: Arena, z: Sizes, v: BlockView) -> bool
    decreases v, 1nat,
{
    let i = block_slot(z, v);
    let zs = z.plus(stmts_count(v.stmts));
    &&& 0 <= i < a.blocks@.len()
    &&& placed_stmts(a, z, a.blocks@[i].stmts@, v.stmts)
    &&& match (a.blocks@[i].tail, v.tail) {
        (None, None) => true,
        (Some(e), Some(x)) => e.0 == expr_slot(zs, *x) && placed_expr(a, zs, *x),
        _ => false,
    }
}

/// The statements `vs`, referred to by `refs`, were stored one after another in reading
/// order from the counts `z` on, each after what it refers to.
#[verifier::opaque]
pub open spec fn placed_stmts(a: Arena, z: Sizes, refs: Seq<StmtRef>, vs: Seq<StmtView>) -> bool
    decreases vs, 0nat,
{
    &&& refs.len() == vs.len()
    &&& vs.len() > 0 ==> {
        let zl = z.plus(stmts_count(vs.drop_last()));
        let k = zl.plus(statement_count(vs.last())).stmts;
        &&& placed_stmts(a, z, refs.drop_last(), vs.drop_last())
        &&& refs.last().0 == k
        &&& k < a.stmts@.len()
        &&& placed_statement(a, zl, a.stmts@[k as int], vs.last())
    }
}

/// What the statement `st` refers to was stored in reading order from the counts `z` on.
#[verifier::opaque]
pub open spec fn placed_statement(a: Arena, z: Sizes, st: Statement, v: StmtView) -> bool
    decreases v, 0nat,
{
    match v {
        StmtView::Return(x) => st matches Statement::EarlyReturn(e) && e.0 == expr_slot(z, x)
            && placed_expr(a, z, x),
        StmtView::Loop(bv) => st matches Statement::Loop(b) && b.0 == block_slot(z, bv)
            && placed_block(a, z, bv),
        StmtView::Iterate(x, bv) => st matches Statement::Iteration { source, body } && source.0
            == expr_slot(z, x) && placed_expr(a, z, x) && body.0 == block_slot(
            z.plus(expr_count(x)),
            bv,
        ) && placed_block(a, z.plus(expr_count(x)), bv),
        StmtView::TypeDecl(..) => true,
        StmtView::Mutate(_, _, args, _) => st matches Statement::Mutation { args: refs, .. }
            && placed_exprs(a, z, refs@, args),
        StmtView::Instance(_, _, x, _) => st matches Statement::Instance { value, .. } && value.0
            == expr_slot(z, x) && placed_expr(a, z, x),
        StmtView::Expr(x) => st matches Statement::Expr(e) && e.0 == expr_slot(z, x)
            && placed_expr(a, z, x),
    }
}

/// The match `v` was stored in reading order from the counts `z` on: its target, its
/// arms, then the match.
#[verifier::opaque]
pub open spec fn placed_match(a: Arena, z: Sizes, v: MatchView) -> bool
    decreases v, 1nat,
{
    let i = match_slot(z, v);
    &&& 0 <= i < a.matches@.len()
    &&& match (a.matches@[i].target, v.target) {
        (None, None) => true,
        (Some(e), Some(x)) => e.0 == expr_slot(z, *x) && placed_expr(a, z, *x),
        _ => false,
    }
    &&& placed_arms(a, z.plus(opt_count(v.target)), a.matches@[i].arms@, v.arms)
}

/// The arms `vs`, referred to by `refs`, were stored one after another in reading order
/// from the counts `z` on, each after its result.
#[verifier::opaque]
pub open spec fn placed_arms(a: Arena, z: Sizes, refs: Seq<MatchArmRef>, vs: Seq<(Seq<PatternView>, ExprView)>) -> bool
    decreases vs, 0nat,
{
    &&& refs.len() == vs.len()
    &&& vs.len() > 0 ==> {
        let zl = z.plus(arms_count(vs.drop_last()));
        let k = zl.plus(expr_count(vs.last().1)).match_arms;
        &&& placed_arms(a, z, refs.drop_last(), vs.drop_last())
        &&& refs.last().0 == k
        &&& k < a.match_arms@.len()
        &&& a.match_arms@[k as int].result.0 == expr_slot(zl, vs.last().1)
        &&& placed_expr(a, zl, vs.last().1)
    }
}

/// How a tree was placed in an arena stays true when the arena grows.
pub proof fn lemma_placed_expr_grow(a: Arena, b: Arena, z: Sizes, v: ExprView)
    requires
        b.extends(&a),
        placed_expr(a, z, v),
    ensures
        placed_expr(b, z, v),
    decreases v, 1nat,
{
    reveal(placed_expr);
    reveal(placed_exprs);
    reveal(placed_inits);
    reveal(placed_block);
    reveal(placed_stmts);
    reveal(placed_statement);
    reveal(placed_match);
    reveal(placed_arms);
    let i = expr_slot(z, v);
    let node = a.exprs@[i];
    assert(b.exprs@[i] == node);
    match v {
        ExprView::Binary(_, l, r, _) => {
            lemma_placed_expr_grow(a, b, z, *l);
            lemma_placed_expr_grow(a, b, z.plus(expr_count(*l)), *r);
        },
        ExprView::Field(o, _, _) => {
            lemma_placed_expr_grow(a, b, z, *o);
        },
        ExprView::Call(o, _, args, _) => {
            lemma_placed_expr_grow(a, b, z, *o);
            if let Expr::MethodCall { args: refs, .. } = node {
                lemma_placed_exprs_grow(a, b, z.plus(expr_count(*o)), refs@, args);
            }
        },
        ExprView::Try(x, _) => {
            lemma_placed_expr_grow(a, b, z, *x);
        },
        ExprView::PathCall(_, _, args, _) => {
            if let Expr::PathMethod { args: refs, .. } = node {
                lemma_placed_exprs_grow(a, b, z, refs@, args);
            }
        },
        ExprView::Eval(bv) => {
            lemma_placed_block_grow(a, b, z, bv);
        },
        ExprView::Loop(bv) => {
            lemma_placed_block_grow(a, b, z, bv);
        },
        ExprView::Match(mv) => {
            lemma_placed_match_grow(a, b, z, mv);
        },
        ExprView::Iterate(x, bv) => {
            lemma_placed_expr_grow(a, b, z, *x);
            lemma_placed_block_grow(a, b, z.plus(expr_count(*x)), bv);
        },
        ExprView::Construct(_, fs, _) => {
            if let Expr::StructConstruct { fields, .. } = node {
                lemma_placed_inits_grow(a, b, z, fields@, fs);
            }
        },
        _ => {},
    }
}

/// How a run of expressions was placed stays true when the arena grows.
pub proof fn lemma_placed_exprs_grow(a: Arena, b: Arena, z: Sizes, refs: Seq<ExprRef>, vs: Seq<ExprView>)
    requires
        b.extends(&a),
        placed_exprs(a, z, refs, vs),
    ensures
        placed_exprs(b, z, refs, vs),
    decreases vs, 0nat,
{
    reveal(placed_expr);
    reveal(placed_exprs);
    reveal(placed_inits);
    reveal(placed_block);
    reveal(placed_stmts);
    reveal(placed_statement);
    reveal(placed_match);
    reveal(placed_arms);
    if vs.len() > 0 {
        lemma_placed_exprs_grow(a, b, z, refs.drop_last(), vs.drop_last());
        lemma_placed_expr_grow(a, b, z.plus(exprs_count(vs.drop_last())), vs.last());
    }
}

/// How a run of field initializers was placed stays true when the arena grows.
pub proof fn lemma_placed_inits_grow(
    a: Arena,
    b: Arena,
    z: Sizes,
    refs: Seq<FieldInitRef>,
    vs: Seq<(Seq<char>, ExprView)>,
)
    requires
        b.extends(&a),
        placed_inits(a, z, refs, vs),
    ensures
        placed_inits(b, z, refs, vs),
    decreases vs, 0nat,
{
    reveal(placed_expr);
    reveal(placed_exprs);
    reveal(placed_inits);
    reveal(placed_block);
    reveal(placed_stmts);
    reveal(placed_statement);
    reveal(placed_match);
    reveal(placed_arms);
    if vs.len() > 0 {
        let zl = z.plus(inits_count(vs.drop_last()));
        let k = zl.plus(expr_count(vs.last().1)).field_inits;
        assert(b.field_inits@[k as int] == a.field_inits@[k as int]);
        lemma_placed_inits_grow(a, b, z, refs.drop_last(), vs.drop_last());
        lemma_placed_expr_grow(a, b, zl, vs.last().1);
    }
}

/// How a block was placed stays true when the arena grows.
pub proof fn lemma_placed_block_grow(a: Arena, b: Arena, z: Sizes, v: BlockView)
    requires
        b.extends(&a),
        placed_block(a, z, v),
    ensures
        placed_block(b, z, v),
    decreases v, 1nat,
{
    reveal(placed_expr);
    reveal(placed_exprs);
    reveal(placed_inits);
    reveal(placed_block);
    reveal(placed_stmts);
    reveal(placed_statement);
    reveal(placed_match);
    reveal(placed_arms);
    let i = block_slot(z, v);
    assert(b.blocks@[i] == a.blocks@[i]);
    lemma_placed_stmts_grow(a, b, z, a.blocks@[i].stmts@, v.stmts);
    if let Some(x) = v.tail {
        lemma_placed_expr_grow(a, b, z.plus(stmts_count(v.stmts)), *x);
    }
}

/// How a run of statements was placed stays true when the arena grows.
pub proof fn lemma_placed_stmts_grow(a: Arena, b: Arena, z: Sizes, refs: Seq<StmtRef>, vs: Seq<StmtView>)
    requires
        b.extends(&a),
        placed_stmts(a, z, refs, vs),
    ensures
        placed_stmts(b, z, refs, vs),
    decreases vs, 0nat,
{
    reveal(placed_expr);
    reveal(placed_exprs);
    reveal(placed_inits);
    reveal(placed_block);
    reveal(placed_stmts);
    reveal(placed_statement);
    reveal(placed_match);
    reveal(placed_arms);
    if vs.len() > 0 {
        let zl = z.plus(stmts_count(vs.drop_last()));
        let k = zl.plus(statement_count(vs.last())).stmts;
        assert(b.stmts@[k as int] == a.stmts@[k as int]);
        lemma_placed_stmts_grow(a, b, z, refs.drop_last(), vs.drop_last());
        lemma_placed_statement_grow(a, b, zl, a.stmts@[k as int], vs.last());
    }
}

/// How what a statement refers to was placed stays true when the arena grows.
pub proof fn lemma_placed_statement_grow(a: Arena, b: Arena, z: Sizes, st: Statement, v: StmtView)
    requires
        b.extends(&a),
        placed_statement(a, z, st, v),
    ensures
        placed_statement(b, z, st, v),
    decreases v, 0nat,
{
    reveal(placed_expr);
    reveal(placed_exprs);
    reveal(placed_inits);
    reveal(placed_block);
    reveal(placed_stmts);
    reveal(placed_statement);
    reveal(placed_match);
    reveal(placed_arms);
    match v {
        StmtView::Return(x) => {
            lemma_placed_expr_grow(a, b, z, x);
        },
        StmtView::Loop(bv) => {
            lemma_placed_block_grow(a, b, z, bv);
        },
        StmtView::Iterate(x, bv) => {
            lemma_placed_expr_grow(a, b, z, x);
            lemma_placed_block_grow(a, b, z.plus(expr_count(x)), bv);
        },
        StmtView::Mutate(_, _, args, _) => {
            if let Statement::Mutation { args: refs, .. } = st {
                lemma_placed_exprs_grow(a, b, z, refs@, args);
            }
        },
        StmtView::Instance(_, _, x, _) => {
            lemma_placed_expr_grow(a, b, z, x);
        },
        StmtView::Expr(x) => {
            lemma_placed_expr_grow(a, b, z, x);
        },
        _ => {},
    }
}

/// How a match was placed stays true when the arena grows.
pub proof fn lemma_placed_match_grow(a: Arena, b: Arena, z: Sizes, v: MatchView)
    requires
        b.extends(&a),
        placed_match(a, z, v),
    ensures
        placed_match(b, z, v),
    decreases v, 1nat,
{
    reveal(placed_expr);
    reveal(placed_exprs);
    reveal(placed_inits);
    reveal(placed_block);
    reveal(placed_stmts);
    reveal(placed_statement);
    reveal(placed_match);
    reveal(placed_arms);
    let i = match_slot(z, v);
    assert(b.matches@[i] == a.matches@[i]);
    if let Some(x) = v.target {
        lemma_placed_expr_grow(a, b, z, *x);
    }
    lemma_placed_arms_grow(a, b, z.plus(opt_count(v.target)), a.matches@[i].arms@, v.arms);
}

/// How a run of arms was placed stays true when the arena grows.
pub proof fn lemma_placed_arms_grow(
    a: Arena,
    b: Arena,
    z: Sizes,
    refs: Seq<MatchArmRef>,
    vs: Seq<(Seq<PatternView>, ExprView)>,
)
    requires
        b.extends(&a),
        placed_arms(a, z, refs, vs),
    ensures
        placed_arms(b, z, refs, vs),
    decreases vs, 0nat,
{
    reveal(placed_expr);
    reveal(placed_exprs);
    reveal(placed_inits);
    reveal(placed_block);
    reveal(placed_stmts);
    reveal(placed_statement);
    reveal(placed_match);
    reveal(placed_arms);
    if vs.len() > 0 {
        let zl = z.plus(arms_count(vs.drop_last()));
        let k = zl.plus(expr_count(vs.last().1)).match_arms;
        assert(b.match_arms@[k as int] == a.match_arms@[k as int]);
        lemma_placed_arms_grow(a, b, z, refs.drop_last(), vs.drop_last());
        lemma_placed_expr_grow(a, b, zl, vs.last().1);
    }
}

/// One more arm adds its result and the arm.
pub proof fn lemma_arms_count_push(vs: Seq<(Seq<PatternView>, ExprView)>, x: (Seq<PatternView>, ExprView))
    ensures
        arms_count(vs.push(x)) == arms_count(vs).plus(expr_count(x.1)).plus(one_arm()),
        arms_count(seq![x]) == Sizes::none().plus(expr_count(x.1)).plus(one_arm()),
{
    assert(vs.push(x).drop_last() =~= vs);
    assert(vs.push(x).last() == x);
    assert(seq![x].drop_last() =~= Seq::<(Seq<PatternView>, ExprView)>::empty());
    assert(seq![x].last() == x);
    assert(arms_count(Seq::<(Seq<PatternView>, ExprView)>::empty()) == Sizes::none());
}

/// What `a` holds at a reference, `b` holds there too when `b` extends `a`; so a tree
/// read in an arena is still read there after more nodes are added.
pub proof fn lemma_expr_is_grow(a: Arena, b: Arena, e: ExprRef, v: ExprView)
    requires
        b.extends(&a),
        expr_is(a, e, v),
    ensures
        expr_is(b, e, v),
    decreases v, 0nat,
{
    reveal(expr_is);
    reveal(exprs_are);
    reveal(inits_are);
    reveal(block_is);
    reveal(stmts_are);
    reveal(stmt_is);
    reveal(statement_is);
    reveal(match_is);
    reveal(arms_are);
    let node = a.exprs@[e.0 as int];
    assert(b.exprs@[e.0 as int] == node);
    match v {
        ExprView::Binary(_, l, r, _) => {
            let (_, x, y, _) = binary_parts(node)->0;
            lemma_expr_is_grow(a, b, x, *l);
            lemma_expr_is_grow(a, b, y, *r);
        },
        ExprView::Field(o, _, _) => {
            if let Expr::FieldAccess { object, .. } = node {
                lemma_expr_is_grow(a, b, object, *o);
            }
        },
        ExprView::Call(o, _, args, _) => {
            if let Expr::MethodCall { object, args: refs, .. } = node {
                lemma_expr_is_grow(a, b, object, *o);
                lemma_exprs_are_grow(a, b, refs@, args);
            }
        },
        ExprView::Try(i, _) => {
            if let Expr::TryUnwrap { inner, .. } = node {
                lemma_expr_is_grow(a, b, inner, *i);
            }
        },
        ExprView::PathCall(_, _, args, _) => {
            if let Expr::PathMethod { args: refs, .. } = node {
                lemma_exprs_are_grow(a, b, refs@, args);
            }
        },
        ExprView::Eval(bv) => {
            if let Expr::InlineEval(r) = node {
                lemma_block_is_grow(a, b, r, bv);
            }
        },
        ExprView::Match(mv) => {
            if let Expr::Match(m) = node {
                lemma_match_is_grow(a, b, m, mv);
            }
        },
        ExprView::Loop(bv) => {
            if let Expr::Loop(r) = node {
                lemma_block_is_grow(a, b, r, bv);
            }
        },
        ExprView::Iterate(x, bv) => {
            if let Expr::Iteration { source, body } = node {
                lemma_expr_is_grow(a, b, source, *x);
                lemma_block_is_grow(a, b, body, bv);
            }
        },
        ExprView::Construct(_, fs, _) => {
            if let Expr::StructConstruct { fields, .. } = node {
                lemma_inits_are_grow(a, b, fields@, fs);
            }
        },
        _ => {},
    }
}

/// `exprs_are` is kept when the arena grows.
pub proof fn lemma_exprs_are_grow(a: Arena, b: Arena, refs: Seq<ExprRef>, vs: Seq<ExprView>)
    requires
        b.extends(&a),
        exprs_are(a, refs, vs),
    ensures
        exprs_are(b, refs, vs),
    decreases vs, 0nat,
{
    reveal(expr_is);
    reveal(exprs_are);
    reveal(inits_are);
    reveal(block_is);
    reveal(stmts_are);
    reveal(stmt_is);
    reveal(statement_is);
    reveal(match_is);
    reveal(arms_are);
    assert forall|i: int| 0 <= i < vs.len() implies expr_is(b, #[trigger] refs[i], vs[i]) by {
        lemma_expr_is_grow(a, b, refs[i], vs[i]);
    }
}

/// `inits_are` is kept when the arena grows.
pub proof fn lemma_inits_are_grow(
    a: Arena,
    b: Arena,
    refs: Seq<FieldInitRef>,
    vs: Seq<(Seq<char>, ExprView)>,
)
    requires
        b.extends(&a),
        inits_are(a, refs, vs),
    ensures
        inits_are(b, refs, vs),
    decreases vs, 0nat,
{
    reveal(expr_is);
    reveal(exprs_are);
    reveal(inits_are);
    reveal(block_is);
    reveal(stmts_are);
    reveal(stmt_is);
    reveal(statement_is);
    reveal(match_is);
    reveal(arms_are);
    assert forall|i: int| 0 <= i < vs.len() implies {
        &&& (#[trigger] refs[i]).0 < b.field_inits@.len()
        &&& b.field_inits@[refs[i].0 as int].name.0@ == vs[i].0
        &&& expr_is(b, b.field_inits@[refs[i].0 as int].value, vs[i].1)
    } by {
        assert(b.field_inits@[refs[i].0 as int] == a.field_inits@[refs[i].0 as int]);
        lemma_expr_is_grow(a, b, a.field_inits@[refs[i].0 as int].value, vs[i].1);
    }
}

/// `block_is` is kept when the arena grows.
pub proof fn lemma_block_is_grow(a: Arena, b: Arena, r: BlockRef, v: BlockView)
    requires
        b.extends(&a),
        block_is(a, r, v),
    ensures
        block_is(b, r, v),
    decreases v, 0nat,
{
    reveal(expr_is);
    reveal(exprs_are);
    reveal(inits_are);
    reveal(block_is);
    reveal(stmts_are);
    reveal(stmt_is);
    reveal(statement_is);
    reveal(match_is);
    reveal(arms_are);
    let blk = a.blocks@[r.0 as int];
    assert(b.blocks@[r.0 as int] == blk);
    lemma_stmts_are_grow(a, b, blk.stmts@, v.stmts);
    if let (Some(e), Some(x)) = (blk.tail, v.tail) {
        lemma_expr_is_grow(a, b, e, *x);
    }
}

/// `stmts_are` is kept when the arena grows.
pub proof fn lemma_stmts_are_grow(a: Arena, b: Arena, refs: Seq<StmtRef>, vs: Seq<StmtView>)
    requires
        b.extends(&a),
        stmts_are(a, refs, vs),
    ensures
        stmts_are(b, refs, vs),
    decreases vs, 0nat,
{
    reveal(expr_is);
    reveal(exprs_are);
    reveal(inits_are);
    reveal(block_is);
    reveal(stmts_are);
    reveal(stmt_is);
    reveal(statement_is);
    reveal(match_is);
    reveal(arms_are);
    assert forall|i: int| 0 <= i < vs.len() implies stmt_is(b, #[trigger] refs[i], vs[i]) by {
        lemma_stmt_is_grow(a, b, refs[i], vs[i]);
    }
}

/// `stmt_is` is kept when the arena grows.
pub proof fn lemma_stmt_is_grow(a: Arena, b: Arena, r: StmtRef, v: StmtView)
    requires
        b.extends(&a),
        stmt_is(a, r, v),
    ensures
        stmt_is(b, r, v),
    decreases v, 1nat,
{
    reveal(expr_is);
    reveal(exprs_are);
    reveal(inits_are);
    reveal(block_is);
    reveal(stmts_are);
    reveal(stmt_is);
    reveal(statement_is);
    reveal(match_is);
    reveal(arms_are);
    assert(b.stmts@[r.0 as int] == a.stmts@[r.0 as int]);
    lemma_statement_is_grow(a, b, a.stmts@[r.0 as int], v);
}

/// `statement_is` is kept when the arena grows.
pub proof fn lemma_statement_is_grow(a: Arena, b: Arena, st: Statement, v: StmtView)
    requires
        b.extends(&a),
        statement_is(a, st, v),
    ensures
        statement_is(b, st, v),
    decreases v, 0nat,
{
    reveal(expr_is);
    reveal(exprs_are);
    reveal(inits_are);
    reveal(block_is);
    reveal(stmts_are);
    reveal(stmt_is);
    reveal(statement_is);
    reveal(match_is);
    reveal(arms_are);
    match v {
        StmtView::Return(x) => {
            if let Statement::EarlyReturn(e) = st {
                lemma_expr_is_grow(a, b, e, x);
            }
        },
        StmtView::Loop(bv) => {
            if let Statement::Loop(r) = st {
                lemma_block_is_grow(a, b, r, bv);
            }
        },
        StmtView::Iterate(x, bv) => {
            if let Statement::Iteration { source, body } = st {
                lemma_expr_is_grow(a, b, source, x);
                lemma_block_is_grow(a, b, body, bv);
            }
        },
        StmtView::Mutate(_, _, args, _) => {
            if let Statement::Mutation { args: refs, .. } = st {
                lemma_exprs_are_grow(a, b, refs@, args);
            }
        },
        StmtView::Instance(_, _, x, _) => {
            if let Statement::Instance { value, .. } = st {
                lemma_expr_is_grow(a, b, value, x);
            }
        },
        StmtView::Expr(x) => {
            if let Statement::Expr(e) = st {
                lemma_expr_is_grow(a, b, e, x);
            }
        },
        _ => {},
    }
}

/// `match_is` is kept when the arena grows.
pub proof fn lemma_match_is_grow(a: Arena, b: Arena, m: MatchRef, v: MatchView)
    requires
        b.extends(&a),
        match_is(a, m, v),
    ensures
        match_is(b, m, v),
    decreases v, 0nat,
{
    reveal(expr_is);
    reveal(exprs_are);
    reveal(inits_are);
    reveal(block_is);
    reveal(stmts_are);
    reveal(stmt_is);
    reveal(statement_is);
    reveal(match_is);
    reveal(arms_are);
    let mx = a.matches@[m.0 as int];
    assert(b.matches@[m.0 as int] == mx);
    if let (Some(e), Some(x)) = (mx.target, v.target) {
        lemma_expr_is_grow(a, b, e, *x);
    }
    lemma_arms_are_grow(a, b, mx.arms@, v.arms);
}

/// `arms_are` is kept when the arena grows.
pub proof fn lemma_arms_are_grow(
    a: Arena,
    b: Arena,
    refs: Seq<MatchArmRef>,
    vs: Seq<(Seq<PatternView>, ExprView)>,
)
    requires
        b.extends(&a),
        arms_are(a, refs, vs),
    ensures
        arms_are(b, refs, vs),
    decreases vs, 0nat,
{
    reveal(expr_is);
    reveal(exprs_are);
    reveal(inits_are);
    reveal(block_is);
    reveal(stmts_are);
    reveal(stmt_is);
    reveal(statement_is);
    reveal(match_is);
    reveal(arms_are);
    assert forall|i: int| 0 <= i < vs.len() implies {
        &&& (#[trigger] refs[i]).0 < b.match_arms@.len()
        &&& pattern_views(b.match_arms@[refs[i].0 as int].patterns@) == vs[i].0
        &&& expr_is(b, b.match_arms@[refs[i].0 as int].result, vs[i].1)
    } by {
        assert(b.match_arms@[refs[i].0 as int] == a.match_arms@[refs[i].0 as int]);
        lemma_expr_is_grow(a, b, a.match_arms@[refs[i].0 as int].result, vs[i].1);
    }
}

/// A statement read at `r` extends a sequence of statements read at `refs`.
pub proof fn lemma_stmts_are_push(a: Arena, refs: Seq<StmtRef>, vs: Seq<StmtView>, r: StmtRef, v: StmtView)
    requires
        stmts_are(a, refs, vs),
        stmt_is(a, r, v),
    ensures
        stmts_are(a, refs.push(r), vs.push(v)),
{
    reveal(stmts_are);
    reveal(stmt_is);
    reveal(statement_is);
    assert forall|i: int| 0 <= i < vs.push(v).len() implies stmt_is(
        a,
        #[trigger] refs.push(r)[i],
        vs.push(v)[i],
    ) by {
        if i < vs.len() {
            assert(refs.push(r)[i] == refs[i]);
        }
    }
}

/// The body of a method.
pub enum BodyView {
    Block(BlockView),
    Match(MatchView),
    Loop(BlockView),
    Iterate(ExprView, BlockView),
    Construct(Seq<char>, Seq<(Seq<char>, ExprView)>, Span),
}

/// The nodes the method body `v` adds.
pub open spec fn body_count(v: BodyView) -> Sizes {
    match v {
        BodyView::Block(bv) => block_count(bv),
        BodyView::Match(mv) => match_count(mv),
        BodyView::Loop(bv) => block_count(bv),
        BodyView::Iterate(x, bv) => expr_count(x).plus(block_count(bv)),
        BodyView::Construct(_, fs, _) => inits_count(fs),
    }
}

/// What the method body `mb` refers to was stored in reading order from the counts `z`
/// on.
pub open spec fn placed_body(a: Arena, z: Sizes, mb: MethodBody, v: BodyView) -> bool {
    match v {
        BodyView::Block(bv) => mb matches MethodBody::Block(b) && b.0 == block_slot(z, bv)
            && placed_block(a, z, bv),
        BodyView::Match(mv) => mb matches MethodBody::Match(m) && m.0 == match_slot(z, mv)
            && placed_match(a, z, mv),
        BodyView::Loop(bv) => mb matches MethodBody::Loop(b) && b.0 == block_slot(z, bv)
            && placed_block(a, z, bv),
        BodyView::Iterate(x, bv) => mb matches MethodBody::Iteration { source, body } && source.0
            == expr_slot(z, x) && placed_expr(a, z, x) && body.0 == block_slot(
            z.plus(expr_count(x)),
            bv,
        ) && placed_block(a, z.plus(expr_count(x)), bv),
        BodyView::Construct(_, fs, _) => mb matches MethodBody::StructConstruct { fields, .. }
            && placed_inits(a, z, fields@, fs),
    }
}

/// How a method body was placed stays true when the arena grows.
pub proof fn lemma_placed_body_grow(a: Arena, b: Arena, z: Sizes, mb: MethodBody, v: BodyView)
    requires
        b.extends(&a),
        placed_body(a, z, mb, v),
    ensures
        placed_body(b, z, mb, v),
{
    match v {
        BodyView::Block(bv) => lemma_placed_block_grow(a, b, z, bv),
        BodyView::Match(mv) => lemma_placed_match_grow(a, b, z, mv),
        BodyView::Loop(bv) => lemma_placed_block_grow(a, b, z, bv),
        BodyView::Iterate(x, bv) => {
            lemma_placed_expr_grow(a, b, z, x);
            lemma_placed_block_grow(a, b, z.plus(expr_count(x)), bv);
        },
        BodyView::Construct(_, fs, _) => {
            if let MethodBody::StructConstruct { fields, .. } = mb {
                lemma_placed_inits_grow(a, b, z, fields@, fs);
            }
        },
    }
}

/// The method body `b`, whose references point into `a`, is the tree `v`.
pub open spec fn body_is(a: Arena, b: MethodBody, v: BodyView) -> bool {
    match v {
        BodyView::Block(bv) => b matches MethodBody::Block(r) && block_is(a, r, bv),
        BodyView::Match(mv) => b matches MethodBody::Match(m) && match_is(a, m, mv),
        BodyView::Loop(bv) => b matches MethodBody::Loop(r) && block_is(a, r, bv),
        BodyView::Iterate(x, bv) => b matches MethodBody::Iteration { source, body } && expr_is(
            a,
            source,
            x,
        ) && block_is(a, body, bv),
        BodyView::Construct(ty, fs, sp) => b matches MethodBody::StructConstruct {
            typ,
            fields,
            span,
        } && typ.0@ == ty && span == sp && inits_are(a, fields@, fs),
    }
}

/// `body_is` is kept when the arena grows.
pub proof fn lemma_body_is_grow(a: Arena, b: Arena, mb: MethodBody, v: BodyView)
    requires
        b.extends(&a),
        body_is(a, mb, v),
    ensures
        body_is(b, mb, v),
{
    match v {
        BodyView::Block(bv) => {
            if let MethodBody::Block(r) = mb {
                lemma_block_is_grow(a, b, r, bv);
            }
        },
        BodyView::Match(mv) => {
            if let MethodBody::Match(m) = mb {
                lemma_match_is_grow(a, b, m, mv);
            }
        },
        BodyView::Loop(bv) => {
            if let MethodBody::Loop(r) = mb {
                lemma_block_is_grow(a, b, r, bv);
            }
        },
        BodyView::Iterate(x, bv) => {
            if let MethodBody::Iteration { source, body } = mb {
                lemma_expr_is_grow(a, b, source, x);
                lemma_block_is_grow(a, b, body, bv);
            }
        },
        BodyView::Construct(_, fs, _) => {
            if let MethodBody::StructConstruct { fields, .. } = mb {
                lemma_inits_are_grow(a, b, fields@, fs);
            }
        },
    }
}

/// What a method parameter says.
pub enum ParamView {
    BorrowSelf,
    MutBorrowSelf,
    OwnedSelf,
    Named(Seq<char>, TypeView),
    Bare(Seq<char>),
}

impl Param {
    /// What this parameter says.
    pub open spec fn view_param(&self) -> ParamView {
        match self {
            Param::BorrowSelf => ParamView::BorrowSelf,
            Param::MutBorrowSelf => ParamView::MutBorrowSelf,
            Param::OwnedSelf => ParamView::OwnedSelf,
            Param::Named { name, typ } => ParamView::Named(name.0@, typ.view_type()),
            Param::Bare { name } => ParamView::Bare(name.0@),
        }
    }
}

/// What an optional type says.
pub open spec fn opt_type_view(o: Option<TypeExpr>) -> Option<TypeView> {
    match o {
        Some(t) => Some(t.view_type()),
        None => None,
    }
}

/// The parameters at `refs` in `a` say `vs`, in order.
pub open spec fn params_are(a: Arena, refs: Seq<ParamRef>, vs: Seq<ParamView>) -> bool {
    &&& refs.len() == vs.len()
    &&& forall|i: int|
        0 <= i < vs.len() ==> (#[trigger] refs[i]).0 < a.params@.len()
            && a.params@[refs[i].0 as int].view_param() == vs[i]
}

/// `params_are` is kept when the arena grows.
pub proof fn lemma_params_are_grow(a: Arena, b: Arena, refs: Seq<ParamRef>, vs: Seq<ParamView>)
    requires
        b.extends(&a),
        params_are(a, refs, vs),
    ensures
        params_are(b, refs, vs),
{
    assert forall|i: int| 0 <= i < vs.len() implies (#[trigger] refs[i]).0 < b.params@.len()
        && b.params@[refs[i].0 as int].view_param() == vs[i] by {
        assert(b.params@[refs[i].0 as int] == a.params@[refs[i].0 as int]);
    }
}

/// A parameter read at `r` extends a sequence of parameters read at `refs`.
pub proof fn lemma_params_are_push(a: Arena, refs: Seq<ParamRef>, vs: Seq<ParamView>, r: ParamRef, v: ParamView)
    requires
        params_are(a, refs, vs),
        r.0 < a.params@.len(),
        a.params@[r.0 as int].view_param() == v,
    ensures
        params_are(a, refs.push(r), vs.push(v)),
{
    assert forall|i: int| 0 <= i < vs.push(v).len() implies (#[trigger] refs.push(r)[i]).0
        < a.params@.len() && a.params@[refs.push(r)[i].0 as int].view_param() == vs.push(v)[i] by {
        if i < vs.len() {
            assert(refs.push(r)[i] == refs[i]);
        }
    }
}

} // verus!
