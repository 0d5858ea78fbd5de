//! The trees that lexed aski source spells, rule by rule.
//!
//! Each function here follows the grammar rule of the same stem: where the rule reads
//! from `p`, the function gives what was read there, as a tree of `ast` views. The
//! positions where operands and items end come from the grammar's rules. Where the
//! rule does not read, the tree is left unspecified.
use vstd::prelude::*;
use crate::ast::{BlockView, BodyView, ExprView, MatchView, ParamView, PatternView, StmtView};
use crate::domain::{Span, TypeView};
use crate::grammar::{
    add_end, after, and_end, annotation_end, args_end, continues_expr, expr_end,
    is_comparison, kind_at, more_patterns_end, mul_end, pattern_end,
    postfix_end, shape_of, sig, statement_end, tok, atom_end, compare_end,
    method_end, method_head_end, root_child_end, self_at, starts_param, ends_method_head,
    param_end, type_end, sig_end, ffi_fn_end, body_end,
};
use crate::parse::{text_of, type_tree};
use crate::token::{Spanned, Token, TokenKind};

verus! {

/// The type that the tokens from `q` spell.
pub open spec fn type_at(t: Seq<Spanned>, q: int) -> TypeView {
    (type_tree(t, q)->0).0
}

/// The first token at or after `q` that is not a newline.
pub open spec fn token_at(t: Seq<Spanned>, q: int) -> Token {
    t[sig(shape_of(t), q)].token
}

/// The span of the first token at or after `q` that is not a newline; past the last
/// token, `0..0`.
pub open spec fn span_at(t: Seq<Spanned>, q: int) -> Span {
    let i = sig(shape_of(t), q);
    if 0 <= i < t.len() {
        Span { start: t[i].span.start as u32, end: t[i].span.end as u32 }
    } else {
        Span { start: 0, end: 0 }
    }
}

/// The span from the first token read at `p` to the last token read before `r`; before any
/// token, empty at the start.
pub open spec fn span_through(t: Seq<Spanned>, p: int, r: int) -> Span {
    Span {
        start: span_at(t, p).start,
        end: if r > 0 {
            t[r - 1].span.end as u32
        } else {
            span_at(t, p).start
        },
    }
}

/// The value of an integer token.
pub open spec fn int_value(tk: Token) -> i64 {
    match tk {
        Token::Integer(v) => v,
        _ => arbitrary(),
    }
}

/// pattern := Pascal (`@` Pascal)? | string
pub open spec fn pattern_tree(t: Seq<Spanned>, p: int) -> PatternView {
    let s = shape_of(t);
    match kind_at(s, p) {
        Some(TokenKind::PascalIdent) => {
            let q = after(s, p);
            if kind_at(s, q) == Some(TokenKind::At) {
                PatternView::Bind(text_of(t, p), text_of(t, after(s, q)))
            } else {
                PatternView::Variant(text_of(t, p))
            }
        },
        _ => PatternView::Str(token_at(t, p).spec_text()),
    }
}

/// The further patterns `| pattern` of a match arm, from `q`.
pub open spec fn more_patterns_tree(t: Seq<Spanned>, q: int) -> Seq<PatternView>
    decreases t.len() - q,
{
    let s = shape_of(t);
    if !(0 <= q <= t.len()) {
        Seq::empty()
    } else if kind_at(s, q) == Some(TokenKind::Pipe) {
        match pattern_end(s, after(s, q)) {
            Some(r) => if q < r <= t.len() {
                seq![pattern_tree(t, after(s, q))] + more_patterns_tree(t, r)
            } else {
                Seq::empty()
            },
            None => Seq::empty(),
        }
    } else {
        Seq::empty()
    }
}

/// The patterns of a match arm, the first at `q`.
pub open spec fn patterns_tree(t: Seq<Spanned>, q: int) -> Seq<PatternView> {
    seq![pattern_tree(t, q)] + more_patterns_tree(t, pattern_end(shape_of(t), q)->0)
}

/// expr := or
#[verifier::opaque]
pub open spec fn expr_tree(t: Seq<Spanned>, p: int) -> ExprView
    decreases t.len() - p, 9nat,
{
    if !(0 <= p <= t.len()) {
        arbitrary()
    } else {
        or_tree(t, p)
    }
}

/// or := and (`||` and)*, grouped to the left.
#[verifier::opaque]
pub open spec fn or_tree(t: Seq<Spanned>, p: int) -> ExprView
    decreases t.len() - p, 8nat,
{
    let s = shape_of(t);
    if !(0 <= p <= t.len()) {
        arbitrary()
    } else {
        match and_end(s, p) {
            Some(q) => if p < q <= t.len() {
                or_rest_tree(t, q, and_tree(t, p))
            } else {
                arbitrary()
            },
            None => arbitrary(),
        }
    }
}

/// The `|| and` from `q` applied, left to right, to `acc`.
#[verifier::opaque]
pub open spec fn or_rest_tree(t: Seq<Spanned>, q: int, acc: ExprView) -> ExprView
    decreases t.len() - q, 0nat,
{
    let s = shape_of(t);
    if !(0 <= q <= t.len()) {
        acc
    } else if kind_at(s, q) == Some(TokenKind::LogicalOr) {
        let q1 = after(s, q);
        if q < q1 <= t.len() {
            match and_end(s, q1) {
                Some(r) => if q1 < r <= t.len() {
                    or_rest_tree(
                        t,
                        r,
                        ExprView::Binary(
                            TokenKind::LogicalOr,
                            Box::new(acc),
                            Box::new(and_tree(t, q1)),
                            span_at(t, q),
                        ),
                    )
                } else {
                    acc
                },
                None => acc,
            }
        } else {
            acc
        }
    } else {
        acc
    }
}

/// and := compare (`&&` compare)*, grouped to the left.
#[verifier::opaque]
pub open spec fn and_tree(t: Seq<Spanned>, p: int) -> ExprView
    decreases t.len() - p, 7nat,
{
    let s = shape_of(t);
    if !(0 <= p <= t.len()) {
        arbitrary()
    } else {
        match compare_end(s, p) {
            Some(q) => if p < q <= t.len() {
                and_rest_tree(t, q, compare_tree(t, p))
            } else {
                arbitrary()
            },
            None => arbitrary(),
        }
    }
}

/// The `&& compare` from `q` applied, left to right, to `acc`.
#[verifier::opaque]
pub open spec fn and_rest_tree(t: Seq<Spanned>, q: int, acc: ExprView) -> ExprView
    decreases t.len() - q, 0nat,
{
    let s = shape_of(t);
    if !(0 <= q <= t.len()) {
        acc
    } else if kind_at(s, q) == Some(TokenKind::LogicalAnd) {
        let q1 = after(s, q);
        if q < q1 <= t.len() {
            match compare_end(s, q1) {
                Some(r) => if q1 < r <= t.len() {
                    and_rest_tree(
                        t,
                        r,
                        ExprView::Binary(
                            TokenKind::LogicalAnd,
                            Box::new(acc),
                            Box::new(compare_tree(t, q1)),
                            span_at(t, q),
                        ),
                    )
                } else {
                    acc
                },
                None => acc,
            }
        } else {
            acc
        }
    } else {
        acc
    }
}

/// compare := add (comparison add)?
#[verifier::opaque]
pub open spec fn compare_tree(t: Seq<Spanned>, p: int) -> ExprView
    decreases t.len() - p, 6nat,
{
    let s = shape_of(t);
    if !(0 <= p <= t.len()) {
        arbitrary()
    } else {
        match add_end(s, p) {
            Some(q) => if p < q <= t.len() {
                match kind_at(s, q) {
                    Some(k) => if is_comparison(k) {
                        let q1 = after(s, q);
                        if q < q1 <= t.len() {
                            ExprView::Binary(
                                k,
                                Box::new(add_tree(t, p)),
                                Box::new(add_tree(t, q1)),
                                span_at(t, q),
                            )
                        } else {
                            arbitrary()
                        }
                    } else {
                        add_tree(t, p)
                    },
                    None => add_tree(t, p),
                }
            } else {
                arbitrary()
            },
            None => arbitrary(),
        }
    }
}

/// add := mul ((`+` | `-`) mul)*, grouped to the left.
#[verifier::opaque]
pub open spec fn add_tree(t: Seq<Spanned>, p: int) -> ExprView
    decreases t.len() - p, 5nat,
{
    let s = shape_of(t);
    if !(0 <= p <= t.len()) {
        arbitrary()
    } else {
        match mul_end(s, p) {
            Some(q) => if p < q <= t.len() {
                add_rest_tree(t, q, mul_tree(t, p))
            } else {
                arbitrary()
            },
            None => arbitrary(),
        }
    }
}

/// The `+ mul` and `- mul` from `q` applied, left to right, to `acc`.
#[verifier::opaque]
pub open spec fn add_rest_tree(t: Seq<Spanned>, q: int, acc: ExprView) -> ExprView
    decreases t.len() - q, 0nat,
{
    let s = shape_of(t);
    if !(0 <= q <= t.len()) {
        acc
    } else if kind_at(s, q) == Some(TokenKind::Plus) || kind_at(s, q) == Some(TokenKind::Minus) {
        let q1 = after(s, q);
        if q < q1 <= t.len() {
            match mul_end(s, q1) {
                Some(r) => if q1 < r <= t.len() {
                    add_rest_tree(
                        t,
                        r,
                        ExprView::Binary(
                            kind_at(s, q)->0,
                            Box::new(acc),
                            Box::new(mul_tree(t, q1)),
                            span_at(t, q),
                        ),
                    )
                } else {
                    acc
                },
                None => acc,
            }
        } else {
            acc
        }
    } else {
        acc
    }
}

/// mul := postfix ((`*` | `%`) postfix)*, grouped to the left.
#[verifier::opaque]
pub open spec fn mul_tree(t: Seq<Spanned>, p: int) -> ExprView
    decreases t.len() - p, 4nat,
{
    let s = shape_of(t);
    if !(0 <= p <= t.len()) {
        arbitrary()
    } else {
        match postfix_end(s, p) {
            Some(q) => if p < q <= t.len() {
                mul_rest_tree(t, q, postfix_tree(t, p))
            } else {
                arbitrary()
            },
            None => arbitrary(),
        }
    }
}

/// The `* postfix` and `% postfix` from `q` applied, left to right, to `acc`.
#[verifier::opaque]
pub open spec fn mul_rest_tree(t: Seq<Spanned>, q: int, acc: ExprView) -> ExprView
    decreases t.len() - q, 0nat,
{
    let s = shape_of(t);
    if !(0 <= q <= t.len()) {
        acc
    } else if kind_at(s, q) == Some(TokenKind::Star) || kind_at(s, q) == Some(TokenKind::Percent) {
        let q1 = after(s, q);
        if q < q1 <= t.len() {
            match postfix_end(s, q1) {
                Some(r) => if q1 < r <= t.len() {
                    mul_rest_tree(
                        t,
                        r,
                        ExprView::Binary(
                            kind_at(s, q)->0,
                            Box::new(acc),
                            Box::new(postfix_tree(t, q1)),
                            span_at(t, q),
                        ),
                    )
                } else {
                    acc
                },
                None => acc,
            }
        } else {
            acc
        }
    } else {
        acc
    }
}

/// postfix := atom (`.` Pascal | `.` camel (`(` expr* `)`)? | `?`)*
#[verifier::opaque]
pub open spec fn postfix_tree(t: Seq<Spanned>, p: int) -> ExprView
    decreases t.len() - p, 3nat,
{
    let s = shape_of(t);
    if !(0 <= p <= t.len()) {
        arbitrary()
    } else {
        match atom_end(s, p) {
            Some(q) => if p < q <= t.len() {
                postfix_rest_tree(t, q, atom_tree(t, p))
            } else {
                arbitrary()
            },
            None => arbitrary(),
        }
    }
}

/// The field accesses, method calls and `?` from `q` applied, left to right, to `acc`.
#[verifier::opaque]
pub open spec fn postfix_rest_tree(t: Seq<Spanned>, q: int, acc: ExprView) -> ExprView
    decreases t.len() - q, 0nat,
{
    let s = shape_of(t);
    if !(0 <= q <= t.len()) {
        acc
    } else if kind_at(s, q) == Some(TokenKind::Dot) {
        let q1 = after(s, q);
        if kind_at(s, q1) == Some(TokenKind::PascalIdent) {
            let r = after(s, q1);
            if q < r <= t.len() {
                postfix_rest_tree(t, r, ExprView::Field(Box::new(acc), text_of(t, q1), span_at(t, q)))
            } else {
                acc
            }
        } else if kind_at(s, q1) == Some(TokenKind::CamelIdent) {
            let q2 = after(s, q1);
            if kind_at(s, q2) == Some(TokenKind::LParen) {
                let q3 = after(s, q2);
                if q < q3 <= t.len() {
                    match args_end(s, q3) {
                        Some(q4) => match tok(s, q4, TokenKind::RParen) {
                            Some(r) => if q < r <= t.len() {
                                postfix_rest_tree(
                                    t,
                                    r,
                                    ExprView::Call(
                                        Box::new(acc),
                                        text_of(t, q1),
                                        args_tree(t, q3),
                                        span_at(t, q),
                                    ),
                                )
                            } else {
                                acc
                            },
                            None => acc,
                        },
                        None => acc,
                    }
                } else {
                    acc
                }
            } else if q < q2 <= t.len() {
                postfix_rest_tree(
                    t,
                    q2,
                    ExprView::Call(Box::new(acc), text_of(t, q1), Seq::empty(), span_at(t, q)),
                )
            } else {
                acc
            }
        } else {
            acc
        }
    } else if kind_at(s, q) == Some(TokenKind::Question) {
        let r = after(s, q);
        if q < r <= t.len() {
            postfix_rest_tree(t, r, ExprView::Try(Box::new(acc), span_at(t, q)))
        } else {
            acc
        }
    } else {
        acc
    }
}

/// One `.Pascal`, `.camel` or `.camel(expr*)` applied to `acc`, its `.` at `q`.
pub open spec fn access_tree(t: Seq<Spanned>, q: int, acc: ExprView) -> ExprView {
    let s = shape_of(t);
    let q1 = after(s, q);
    let q2 = after(s, q1);
    if kind_at(s, q1) == Some(TokenKind::PascalIdent) {
        ExprView::Field(Box::new(acc), text_of(t, q1), span_at(t, q))
    } else if kind_at(s, q2) == Some(TokenKind::LParen) {
        ExprView::Call(Box::new(acc), text_of(t, q1), args_tree(t, after(s, q2)), span_at(t, q))
    } else {
        ExprView::Call(Box::new(acc), text_of(t, q1), Seq::empty(), span_at(t, q))
    }
}

/// One field access, method call or `?` applied to `acc`, its first token at `q`.
pub open spec fn postfix_op_tree(t: Seq<Spanned>, q: int, acc: ExprView) -> ExprView {
    if kind_at(shape_of(t), q) == Some(TokenKind::Question) {
        ExprView::Try(Box::new(acc), span_at(t, q))
    } else {
        access_tree(t, q, acc)
    }
}

/// Call arguments `expr*` from `q`, up to a `)`.
#[verifier::opaque]
pub open spec fn args_tree(t: Seq<Spanned>, q: int) -> Seq<ExprView>
    decreases t.len() - q, 11nat,
{
    let s = shape_of(t);
    if !(0 <= q <= t.len()) {
        Seq::empty()
    } else if kind_at(s, q) == Some(TokenKind::RParen) {
        Seq::empty()
    } else {
        match expr_end(s, q) {
            Some(r) => if q < r <= t.len() {
                seq![expr_tree(t, q)] + args_tree(t, r)
            } else {
                Seq::empty()
            },
            None => Seq::empty(),
        }
    }
}

/// Field initializers `(Pascal expr)*` from `q`, up to a `}`.
#[verifier::opaque]
pub open spec fn inits_tree(t: Seq<Spanned>, q: int) -> Seq<(Seq<char>, ExprView)>
    decreases t.len() - q, 11nat,
{
    let s = shape_of(t);
    if !(0 <= q <= t.len()) {
        Seq::empty()
    } else if kind_at(s, q) == Some(TokenKind::RBrace) || kind_at(s, q) is None {
        Seq::empty()
    } else {
        match tok(s, q, TokenKind::LParen) {
            Some(q1) => match tok(s, q1, TokenKind::PascalIdent) {
                Some(q2) => if q < q2 <= t.len() {
                    match expr_end(s, q2) {
                        Some(q3) => match tok(s, q3, TokenKind::RParen) {
                            Some(r) => if q < r <= t.len() {
                                seq![(text_of(t, q1), expr_tree(t, q2))] + inits_tree(t, r)
                            } else {
                                Seq::empty()
                            },
                            None => Seq::empty(),
                        },
                        None => Seq::empty(),
                    }
                } else {
                    Seq::empty()
                },
                None => Seq::empty(),
            },
            None => Seq::empty(),
        }
    }
}

/// atom := `@` Pascal | Pascal (`/` Pascal | `/` camel `(` expr* `)`)? | literal
///       | block | match | loop | iteration | `{` Pascal field_init* `}`
#[verifier::opaque]
pub open spec fn atom_tree(t: Seq<Spanned>, p: int) -> ExprView
    decreases t.len() - p, 2nat,
{
    let s = shape_of(t);
    if !(0 <= p <= t.len()) {
        arbitrary()
    } else {
        match kind_at(s, p) {
            Some(TokenKind::At) => ExprView::Instance(text_of(t, after(s, p)), span_at(t, p)),
            Some(TokenKind::PascalIdent) => {
                let q = after(s, p);
                if kind_at(s, q) == Some(TokenKind::Slash) {
                    let q1 = after(s, q);
                    if kind_at(s, q1) == Some(TokenKind::PascalIdent) {
                        ExprView::Variant(text_of(t, p), text_of(t, q1), span_at(t, p))
                    } else {
                        match tok(s, after(s, q1), TokenKind::LParen) {
                            Some(q2) => if p < q2 <= t.len() {
                                ExprView::PathCall(
                                    text_of(t, p),
                                    text_of(t, q1),
                                    args_tree(t, q2),
                                    span_at(t, p),
                                )
                            } else {
                                arbitrary()
                            },
                            None => arbitrary(),
                        }
                    }
                } else {
                    ExprView::Instance(text_of(t, p), span_at(t, p))
                }
            },
            Some(TokenKind::Integer) => ExprView::Int(int_value(token_at(t, p)), span_at(t, p)),
            Some(TokenKind::Float) => ExprView::Float(token_at(t, p).spec_text(), span_at(t, p)),
            Some(TokenKind::StringLit) => ExprView::Str(token_at(t, p).spec_text(), span_at(t, p)),
            Some(TokenKind::LBracket) => ExprView::Eval(block_tree(t, p)),
            Some(TokenKind::LParenPipe) => ExprView::Match(match_tree(t, p)),
            Some(TokenKind::LBracketPipe) => ExprView::Loop(loop_tree(t, p)),
            Some(TokenKind::LBracePipe) => ExprView::Iterate(
                Box::new(iteration_tree(t, p).0),
                iteration_tree(t, p).1,
            ),
            Some(TokenKind::LBrace) => match tok(s, after(s, p), TokenKind::PascalIdent) {
                Some(q) => if p < q <= t.len() {
                    ExprView::Construct(text_of(t, after(s, p)), inits_tree(t, q), span_at(t, p))
                } else {
                    arbitrary()
                },
                None => arbitrary(),
            },
            _ => arbitrary(),
        }
    }
}

/// match := `(|` target? arm* `|)`
#[verifier::opaque]
pub open spec fn match_tree(t: Seq<Spanned>, p: int) -> MatchView
    decreases t.len() - p, 1nat,
{
    let s = shape_of(t);
    if !(0 <= p <= t.len()) {
        arbitrary()
    } else {
        match tok(s, p, TokenKind::LParenPipe) {
            Some(q) => if p < q <= t.len() {
                if kind_at(s, q) != Some(TokenKind::LParen) && kind_at(s, q) != Some(
                    TokenKind::RPipeParen,
                ) {
                    match expr_end(s, q) {
                        Some(q1) => if q <= q1 <= t.len() {
                            MatchView {
                                target: Some(Box::new(expr_tree(t, q))),
                                arms: arms_tree(t, q1),
                            }
                        } else {
                            arbitrary()
                        },
                        None => arbitrary(),
                    }
                } else {
                    MatchView { target: None, arms: arms_tree(t, q) }
                }
            } else {
                arbitrary()
            },
            None => arbitrary(),
        }
    }
}

/// Match arms `(pattern (| pattern)*) expr` from `q`, up to a `|)`.
#[verifier::opaque]
pub open spec fn arms_tree(t: Seq<Spanned>, q: int) -> Seq<(Seq<PatternView>, ExprView)>
    decreases t.len() - q, 0nat,
{
    let s = shape_of(t);
    if !(0 <= q <= t.len()) {
        Seq::empty()
    } else if kind_at(s, q) == Some(TokenKind::RPipeParen) || kind_at(s, q) is None {
        Seq::empty()
    } else {
        match tok(s, q, TokenKind::LParen) {
            Some(q1) => match pattern_end(s, q1) {
                Some(q2) => match more_patterns_end(s, q2) {
                    Some(q3) => match tok(s, q3, TokenKind::RParen) {
                        Some(q4) => if q < q4 <= t.len() {
                            match expr_end(s, q4) {
                                Some(r) => if q < r <= t.len() {
                                    seq![(patterns_tree(t, q1), expr_tree(t, q4))] + arms_tree(
                                        t,
                                        r,
                                    )
                                } else {
                                    Seq::empty()
                                },
                                None => Seq::empty(),
                            }
                        } else {
                            Seq::empty()
                        },
                        None => Seq::empty(),
                    },
                    None => Seq::empty(),
                },
                None => Seq::empty(),
            },
            None => Seq::empty(),
        }
    }
}

/// Statements from `q` up to a `close` token. With `tails`, a last statement that is an
/// expression is the block's tail rather than a statement.
#[verifier::opaque]
pub open spec fn stmts_tree(t: Seq<Spanned>, q: int, close: TokenKind, tails: bool) -> BlockView
    decreases t.len() - q, 12nat,
{
    let s = shape_of(t);
    if !(0 <= q <= t.len()) {
        arbitrary()
    } else if kind_at(s, q) == Some(close) || kind_at(s, q) is None {
        BlockView { stmts: Seq::empty(), tail: None }
    } else {
        match statement_end(s, q) {
            Some(r) => if q < r <= t.len() {
                match statement_tree(t, q) {
                    StmtView::Expr(x) => if tails && kind_at(s, r) == Some(close) {
                        BlockView { stmts: Seq::empty(), tail: Some(Box::new(x)) }
                    } else {
                        BlockView {
                            stmts: seq![StmtView::Expr(x)] + stmts_tree(t, r, close, tails).stmts,
                            tail: stmts_tree(t, r, close, tails).tail,
                        }
                    },
                    st => BlockView {
                        stmts: seq![st] + stmts_tree(t, r, close, tails).stmts,
                        tail: stmts_tree(t, r, close, tails).tail,
                    },
                }
            } else {
                arbitrary()
            },
            None => arbitrary(),
        }
    }
}

/// loop := `[|` statement* `|]`
#[verifier::opaque]
pub open spec fn loop_tree(t: Seq<Spanned>, p: int) -> BlockView
    decreases t.len() - p, 1nat,
{
    let s = shape_of(t);
    if !(0 <= p <= t.len()) {
        arbitrary()
    } else {
        match tok(s, p, TokenKind::LBracketPipe) {
            Some(q) => if p < q <= t.len() {
                stmts_tree(t, q, TokenKind::RPipeBracket, false)
            } else {
                arbitrary()
            },
            None => arbitrary(),
        }
    }
}

/// block := `[` statement* `]`, its last expression statement being its tail.
#[verifier::opaque]
pub open spec fn block_tree(t: Seq<Spanned>, p: int) -> BlockView
    decreases t.len() - p, 1nat,
{
    let s = shape_of(t);
    if !(0 <= p <= t.len()) {
        arbitrary()
    } else {
        match tok(s, p, TokenKind::LBracket) {
            Some(q) => if p < q <= t.len() {
                stmts_tree(t, q, TokenKind::RBracket, true)
            } else {
                arbitrary()
            },
            None => arbitrary(),
        }
    }
}

/// iteration := `{|` expr block `|}`: its source and its body.
#[verifier::opaque]
pub open spec fn iteration_tree(t: Seq<Spanned>, p: int) -> (ExprView, BlockView)
    decreases t.len() - p, 1nat,
{
    let s = shape_of(t);
    if !(0 <= p <= t.len()) {
        arbitrary()
    } else {
        match tok(s, p, TokenKind::LBracePipe) {
            Some(q) => if p < q <= t.len() {
                match expr_end(s, q) {
                    Some(q1) => if q < q1 <= t.len() {
                        (expr_tree(t, q), block_tree(t, q1))
                    } else {
                        arbitrary()
                    },
                    None => arbitrary(),
                }
            } else {
                arbitrary()
            },
            None => arbitrary(),
        }
    }
}

/// The type annotation `(type)` of an instance, read after its name at `q`, if any.
pub open spec fn annotation_tree(t: Seq<Spanned>, q: int) -> Option<TypeView> {
    let s = shape_of(t);
    if annotation_end(s, q) == q {
        None
    } else {
        Some(type_at(t, after(s, q)))
    }
}

/// statement := `^` expr | loop | iteration | `(` Pascal type `)`
///            | `~@` Pascal (`.` camel `(` expr* `)` | expr)
///            | `@` Pascal continuing an expression, read as that expression
///            | `@` Pascal (`(` type `)`)? expr | expr
#[verifier::opaque]
pub open spec fn statement_tree(t: Seq<Spanned>, p: int) -> StmtView
    decreases t.len() - p, 10nat,
{
    let s = shape_of(t);
    if !(0 <= p <= t.len()) {
        arbitrary()
    } else {
        match kind_at(s, p) {
            Some(TokenKind::Caret) => {
                let q = after(s, p);
                if p < q <= t.len() {
                    StmtView::Return(expr_tree(t, q))
                } else {
                    arbitrary()
                }
            },
            Some(TokenKind::LBracketPipe) => StmtView::Loop(loop_tree(t, p)),
            Some(TokenKind::LBracePipe) => StmtView::Iterate(
                iteration_tree(t, p).0,
                iteration_tree(t, p).1,
            ),
            Some(TokenKind::LParen) => {
                let q = after(s, p);
                StmtView::TypeDecl(
                    text_of(t, q),
                    type_at(t, after(s, q)),
                    span_through(t, p, statement_end(s, p)->0),
                )
            },
            Some(TokenKind::Tilde) => {
                let q = after(s, after(s, p));
                let q1 = after(s, q);
                if p < q1 <= t.len() {
                    if kind_at(s, q1) == Some(TokenKind::Dot) {
                        let q2 = after(s, after(s, q1));
                        match tok(s, q2, TokenKind::LParen) {
                            Some(q3) => if p < q3 <= t.len() {
                                StmtView::Mutate(
                                    text_of(t, q),
                                    text_of(t, after(s, q1)),
                                    args_tree(t, q3),
                                    span_at(t, statement_end(s, p)->0),
                                )
                            } else {
                                arbitrary()
                            },
                            None => arbitrary(),
                        }
                    } else {
                        StmtView::Instance(
                            text_of(t, q),
                            None,
                            expr_tree(t, q1),
                            span_at(t, statement_end(s, p)->0),
                        )
                    }
                } else {
                    arbitrary()
                }
            },
            Some(TokenKind::At) => {
                let q = after(s, after(s, p));
                if p < q <= t.len() {
                    if kind_at(s, q) is Some && continues_expr(kind_at(s, q)->0) {
                        StmtView::Expr(expr_tree(t, p))
                    } else {
                        let v = annotation_end(s, q);
                        if p < v <= t.len() {
                            StmtView::Instance(
                                text_of(t, after(s, p)),
                                annotation_tree(t, q),
                                expr_tree(t, v),
                                span_at(t, statement_end(s, p)->0),
                            )
                        } else {
                            arbitrary()
                        }
                    }
                } else {
                    arbitrary()
                }
            },
            _ => StmtView::Expr(expr_tree(t, p)),
        }
    }
}

/// Past one statement from `q` to `r` that is not a block's tail, the statements from
/// `q` are that statement followed by those from `r`.
pub proof fn lemma_stmts_step(t: Seq<Spanned>, q: int, r: int, close: TokenKind, tails: bool)
    requires
        0 <= q < r <= t.len(),
        kind_at(shape_of(t), q) is Some,
        kind_at(shape_of(t), q) != Some(close),
        statement_end(shape_of(t), q) == Some(r),
        !(tails && kind_at(shape_of(t), r) == Some(close) && statement_tree(t, q) is Expr),
    ensures
        stmts_tree(t, q, close, tails) == (BlockView {
            stmts: seq![statement_tree(t, q)] + stmts_tree(t, r, close, tails).stmts,
            tail: stmts_tree(t, r, close, tails).tail,
        }),
{
    reveal(stmts_tree);
    reveal(statement_tree);
}

/// An expression statement from `q` to `r` followed by the closing token of a block with a
/// tail is that block's tail.
pub proof fn lemma_stmts_tail(t: Seq<Spanned>, q: int, r: int, close: TokenKind, x: ExprView)
    requires
        0 <= q < r <= t.len(),
        kind_at(shape_of(t), q) is Some,
        kind_at(shape_of(t), q) != Some(close),
        statement_end(shape_of(t), q) == Some(r),
        kind_at(shape_of(t), r) == Some(close),
        statement_tree(t, q) == StmtView::Expr(x),
    ensures
        stmts_tree(t, q, close, true) == (BlockView { stmts: Seq::empty(), tail: Some(Box::new(x)) }),
{
    reveal(stmts_tree);
    reveal(statement_tree);
}

/// At the closing token there are no more statements.
pub proof fn lemma_stmts_end(t: Seq<Spanned>, q: int, close: TokenKind, tails: bool)
    requires
        0 <= q <= t.len(),
        kind_at(shape_of(t), q) == Some(close),
    ensures
        stmts_tree(t, q, close, tails) == (BlockView { stmts: Seq::empty(), tail: None }),
{
    reveal(stmts_tree);
}

/// body := block | match | loop | iteration | `{` Pascal field_init* `}`
pub open spec fn body_tree(t: Seq<Spanned>, p: int) -> BodyView {
    let s = shape_of(t);
    match kind_at(s, p) {
        Some(TokenKind::LBracket) => BodyView::Block(block_tree(t, p)),
        Some(TokenKind::LParenPipe) => BodyView::Match(match_tree(t, p)),
        Some(TokenKind::LBracketPipe) => BodyView::Loop(loop_tree(t, p)),
        Some(TokenKind::LBracePipe) => BodyView::Iterate(
            iteration_tree(t, p).0,
            iteration_tree(t, p).1,
        ),
        _ => BodyView::Construct(
            text_of(t, after(s, p)),
            inits_tree(t, after(s, after(s, p))),
            span_through(t, p, body_end(s, p)->0),
        ),
    }
}

/// The body of the method `(name param.. ReturnType? body?)` at `p`: an empty block where
/// the method has none.
pub open spec fn method_body_tree(t: Seq<Spanned>, p: int) -> BodyView {
    let s = shape_of(t);
    let q2 = method_head_end(s, after(s, after(s, p)))->0;
    if kind_at(s, q2) == Some(TokenKind::RParen) {
        BodyView::Block(BlockView { stmts: Seq::empty(), tail: None })
    } else {
        body_tree(t, q2)
    }
}

/// Where each method of a trait implementation starts, from `q` up to the closing `]`.
pub open spec fn method_starts(s: Seq<(TokenKind, bool)>, q: int) -> Seq<int>
    decreases s.len() - q,
{
    if !(0 <= q <= s.len()) || kind_at(s, q) == Some(TokenKind::RBracket) || kind_at(s, q) is None {
        Seq::empty()
    } else {
        match method_end(s, q) {
            Some(r) => if q < r <= s.len() {
                seq![q] + method_starts(s, r)
            } else {
                Seq::empty()
            },
            None => Seq::empty(),
        }
    }
}

/// Where each top-level construct starts, from `q` to the end of the tokens.
pub open spec fn root_starts(s: Seq<(TokenKind, bool)>, q: int) -> Seq<int>
    decreases s.len() - q,
{
    if !(0 <= q <= s.len()) || kind_at(s, q) is None {
        Seq::empty()
    } else {
        match root_child_end(s, q) {
            Some(r) => if q < r <= s.len() {
                seq![q] + root_starts(s, r)
            } else {
                Seq::empty()
            },
            None => Seq::empty(),
        }
    }
}

/// A parameter: `:@Self`, `~@Self`, `@Self`, `:@Name type`, `~@Name type`, `@Name type`
/// or a bare `@Name`.
pub open spec fn param_tree(t: Seq<Spanned>, p: int) -> ParamView {
    let s = shape_of(t);
    match kind_at(s, p) {
        Some(TokenKind::Colon) | Some(TokenKind::Tilde) => {
            let q1 = after(s, after(s, p));
            if self_at(s, q1) {
                if kind_at(s, p) == Some(TokenKind::Colon) {
                    ParamView::BorrowSelf
                } else {
                    ParamView::MutBorrowSelf
                }
            } else {
                ParamView::Named(text_of(t, q1), type_at(t, after(s, q1)))
            }
        },
        _ => {
            let q = after(s, p);
            let q2 = after(s, q);
            if self_at(s, q) {
                ParamView::OwnedSelf
            } else if kind_at(s, q2) == Some(TokenKind::PascalIdent) || kind_at(s, q2) == Some(
                TokenKind::LBracket,
            ) || kind_at(s, q2) == Some(TokenKind::Dollar) {
                ParamView::Named(text_of(t, q), type_at(t, q2))
            } else {
                ParamView::Bare(text_of(t, q))
            }
        },
    }
}

/// The later of two optional types: `later` where there is one.
pub open spec fn last_type(later: Option<TypeView>, earlier: Option<TypeView>) -> Option<TypeView> {
    if later is Some {
        later
    } else {
        earlier
    }
}

/// The parameters of a method head from `q`, and its return type: the last type read
/// there, if any.
pub open spec fn head_tree(t: Seq<Spanned>, q: int) -> (Seq<ParamView>, Option<TypeView>)
    decreases t.len() - q,
{
    let s = shape_of(t);
    if !(0 <= q <= t.len()) || ends_method_head(kind_at(s, q)) {
        (Seq::empty(), None)
    } else if starts_param(kind_at(s, q)) {
        match param_end(s, q) {
            Some(r) => if q < r <= t.len() {
                (seq![param_tree(t, q)] + head_tree(t, r).0, head_tree(t, r).1)
            } else {
                (Seq::empty(), None)
            },
            None => (Seq::empty(), None),
        }
    } else {
        match type_end(s, q) {
            Some(r) => if q < r <= t.len() {
                (head_tree(t, r).0, last_type(head_tree(t, r).1, Some(type_at(t, q))))
            } else {
                (Seq::empty(), None)
            },
            None => (Seq::empty(), None),
        }
    }
}

/// The items of a signature from `q`: its parameters, then at most one return type.
pub open spec fn sig_items_tree(t: Seq<Spanned>, q: int) -> (Seq<ParamView>, Option<TypeView>)
    decreases t.len() - q,
{
    let s = shape_of(t);
    if !(0 <= q <= t.len()) || kind_at(s, q) == Some(TokenKind::RParen) || kind_at(s, q) is None {
        (Seq::empty(), None)
    } else if starts_param(kind_at(s, q)) {
        match param_end(s, q) {
            Some(r) => if q < r <= t.len() {
                (seq![param_tree(t, q)] + sig_items_tree(t, r).0, sig_items_tree(t, r).1)
            } else {
                (Seq::empty(), None)
            },
            None => (Seq::empty(), None),
        }
    } else {
        (Seq::empty(), Some(type_at(t, q)))
    }
}

/// Where each signature of a trait declaration starts, from `q` up to the closing `]`.
pub open spec fn sig_starts(s: Seq<(TokenKind, bool)>, q: int) -> Seq<int>
    decreases s.len() - q,
{
    if !(0 <= q <= s.len()) || kind_at(s, q) == Some(TokenKind::RBracket) || kind_at(s, q) is None {
        Seq::empty()
    } else {
        match sig_end(s, q) {
            Some(r) => if q < r <= s.len() {
                seq![q] + sig_starts(s, r)
            } else {
                Seq::empty()
            },
            None => Seq::empty(),
        }
    }
}

/// The items of a foreign function from `q`: its `@` parameters, and its return type, the
/// last type read there, if any.
pub open spec fn ffi_items_tree(t: Seq<Spanned>, q: int) -> (Seq<ParamView>, Option<TypeView>)
    decreases t.len() - q,
{
    let s = shape_of(t);
    if !(0 <= q <= t.len()) || kind_at(s, q) == Some(TokenKind::RParen) || kind_at(s, q) is None {
        (Seq::empty(), None)
    } else if kind_at(s, q) == Some(TokenKind::At) {
        match param_end(s, q) {
            Some(r) => if q < r <= t.len() {
                (seq![param_tree(t, q)] + ffi_items_tree(t, r).0, ffi_items_tree(t, r).1)
            } else {
                (Seq::empty(), None)
            },
            None => (Seq::empty(), None),
        }
    } else {
        match type_end(s, q) {
            Some(r) => if q < r <= t.len() {
                (ffi_items_tree(t, r).0, last_type(ffi_items_tree(t, r).1, Some(type_at(t, q))))
            } else {
                (Seq::empty(), None)
            },
            None => (Seq::empty(), None),
        }
    }
}

/// Where each function of a foreign library starts, from `q` up to the closing `|)`.
pub open spec fn ffi_starts(s: Seq<(TokenKind, bool)>, q: int) -> Seq<int>
    decreases s.len() - q,
{
    if !(0 <= q <= s.len()) || kind_at(s, q) == Some(TokenKind::RPipeParen) || kind_at(s, q)
        is None {
        Seq::empty()
    } else {
        match ffi_fn_end(s, q) {
            Some(r) => if q < r <= s.len() {
                seq![q] + ffi_starts(s, r)
            } else {
                Seq::empty()
            },
            None => Seq::empty(),
        }
    }
}

} // verus!
