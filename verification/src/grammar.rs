//! The grammar of aski source, as a recognizer over token shapes.
//!
//! A token's shape is its kind and whether it is the identifier `Self`; that is all the
//! grammar looks at. Newlines are skipped wherever a token is looked for. Each rule
//! takes the position where it starts and gives the position just past what it reads,
//! or `None` where the tokens do not fit the rule. Positions only move forward; the
//! conditions `p < q <= s.len()` written before a rule goes on from `q` say so, which
//! is what makes every rule end.
use vstd::prelude::*;
use crate::token::{Spanned, TokenKind, next_sig};

verus! {

/// The shapes of lexed tokens.
pub open spec fn shape_of(toks: Seq<Spanned>) -> Seq<(TokenKind, bool)> {
    Seq::new(toks.len(), |i: int| (toks[i].token.spec_kind(), toks[i].token.spec_is_self()))
}

/// The first position at or after `p` whose token is not a newline; past the last
/// token, `p` itself.
pub open spec fn sig(s: Seq<(TokenKind, bool)>, p: int) -> int
    decreases s.len() - p,
{
    if 0 <= p < s.len() && s[p].0 == TokenKind::Newline {
        sig(s, p + 1)
    } else {
        p
    }
}

/// The kind of the next token that is not a newline, if any.
pub open spec fn kind_at(s: Seq<(TokenKind, bool)>, p: int) -> Option<TokenKind> {
    let q = sig(s, p);
    if 0 <= q < s.len() {
        Some(s[q].0)
    } else {
        None
    }
}

/// The position after reading the next token that is not a newline; at the end, the end.
pub open spec fn after(s: Seq<(TokenKind, bool)>, p: int) -> int {
    let q = sig(s, p);
    if q < s.len() {
        q + 1
    } else {
        q
    }
}

/// The next token that is not a newline is the identifier `Self`.
pub open spec fn self_at(s: Seq<(TokenKind, bool)>, p: int) -> bool {
    let q = sig(s, p);
    0 <= q < s.len() && s[q].1
}

/// Reads one token of kind `k`.
pub open spec fn tok(s: Seq<(TokenKind, bool)>, p: int, k: TokenKind) -> Option<int> {
    if kind_at(s, p) == Some(k) {
        Some(after(s, p))
    } else {
        None
    }
}

/// Reads an identifier of either case.
pub open spec fn ident(s: Seq<(TokenKind, bool)>, p: int) -> Option<int> {
    if kind_at(s, p) == Some(TokenKind::PascalIdent) || kind_at(s, p) == Some(
        TokenKind::CamelIdent,
    ) {
        Some(after(s, p))
    } else {
        None
    }
}

/// Skipping newlines over tokens and over their shapes stops at the same place.
pub proof fn lemma_sig_shape(toks: Seq<Spanned>, p: int)
    requires
        0 <= p <= toks.len(),
    ensures
        next_sig(toks, p) == sig(shape_of(toks), p),
    decreases toks.len() - p,
{
    if p < toks.len() && toks[p].token.spec_kind() == TokenKind::Newline {
        lemma_sig_shape(toks, p + 1);
    }
}

// ── Types, patterns, parameters ─────────────────────────────────────────

/// type := `[` Pascal type* `]` | `$` Pascal (`&` Pascal)* | Pascal
pub open spec fn type_end(s: Seq<(TokenKind, bool)>, p: int) -> Option<int>
    decreases s.len() - p, 0nat,
{
    if !(0 <= p <= s.len()) {
        None
    } else {
        match kind_at(s, p) {
            Some(TokenKind::LBracket) => match tok(s, after(s, p), TokenKind::PascalIdent) {
                Some(q) => if p < q <= s.len() {
                    match type_args_end(s, q) {
                        Some(r) => tok(s, r, TokenKind::RBracket),
                        None => None,
                    }
                } else {
                    None
                },
                None => None,
            },
            Some(TokenKind::Dollar) => match tok(s, after(s, p), TokenKind::PascalIdent) {
                Some(q) => bounds_end(s, q),
                None => None,
            },
            Some(TokenKind::PascalIdent) => Some(after(s, p)),
            _ => None,
        }
    }
}

/// The arguments of a type application, up to its `]`.
pub open spec fn type_args_end(s: Seq<(TokenKind, bool)>, q: int) -> Option<int>
    decreases s.len() - q, 1nat,
{
    if !(0 <= q <= s.len()) {
        None
    } else if kind_at(s, q) == Some(TokenKind::RBracket) {
        Some(q)
    } else if kind_at(s, q) is None {
        None
    } else {
        match type_end(s, q) {
            Some(r) => if q < r <= s.len() {
                type_args_end(s, r)
            } else {
                None
            },
            None => None,
        }
    }
}

/// The further bounds `& Pascal` of a type parameter.
pub open spec fn bounds_end(s: Seq<(TokenKind, bool)>, q: int) -> Option<int>
    decreases s.len() - q,
{
    if !(0 <= q <= s.len()) {
        None
    } else if kind_at(s, q) == Some(TokenKind::Ampersand) {
        match tok(s, after(s, q), TokenKind::PascalIdent) {
            Some(r) => if q < r <= s.len() {
                bounds_end(s, r)
            } else {
                None
            },
            None => None,
        }
    } else {
        Some(q)
    }
}

/// pattern := Pascal (`@` Pascal)? | string
pub open spec fn pattern_end(s: Seq<(TokenKind, bool)>, p: int) -> Option<int> {
    match kind_at(s, p) {
        Some(TokenKind::PascalIdent) => {
            let q = after(s, p);
            if kind_at(s, q) == Some(TokenKind::At) {
                tok(s, after(s, q), TokenKind::PascalIdent)
            } else {
                Some(q)
            }
        },
        Some(TokenKind::StringLit) => Some(after(s, p)),
        _ => None,
    }
}

/// Further patterns `| pattern` of a match arm.
pub open spec fn more_patterns_end(s: Seq<(TokenKind, bool)>, q: int) -> Option<int>
    decreases s.len() - q,
{
    if !(0 <= q <= s.len()) {
        None
    } else if kind_at(s, q) == Some(TokenKind::Pipe) {
        match pattern_end(s, after(s, q)) {
            Some(r) => if q < r <= s.len() {
                more_patterns_end(s, r)
            } else {
                None
            },
            None => None,
        }
    } else {
        Some(q)
    }
}

/// A borrowed parameter after its `:` or `~`: `@Self` or `@Name type`.
pub open spec fn borrow_param_end(s: Seq<(TokenKind, bool)>, q: int) -> Option<int> {
    match tok(s, q, TokenKind::At) {
        Some(q1) => if self_at(s, q1) {
            Some(after(s, q1))
        } else {
            match tok(s, q1, TokenKind::PascalIdent) {
                Some(q2) => type_end(s, q2),
                None => None,
            }
        },
        None => None,
    }
}

/// param := `:` borrowed | `~` borrowed | `@Self` | `@Name` type?
/// (an owned parameter has a type when a type can start after its name)
pub open spec fn param_end(s: Seq<(TokenKind, bool)>, p: int) -> Option<int> {
    match kind_at(s, p) {
        Some(TokenKind::Colon) => borrow_param_end(s, after(s, p)),
        Some(TokenKind::Tilde) => borrow_param_end(s, after(s, p)),
        Some(TokenKind::At) => {
            let q = after(s, p);
            if self_at(s, q) {
                Some(after(s, q))
            } else {
                match tok(s, q, TokenKind::PascalIdent) {
                    Some(q2) => if kind_at(s, q2) == Some(TokenKind::PascalIdent) || kind_at(s, q2)
                        == Some(TokenKind::LBracket) || kind_at(s, q2) == Some(
                        TokenKind::Dollar,
                    ) {
                        type_end(s, q2)
                    } else {
                        Some(q2)
                    },
                    None => None,
                }
            }
        },
        _ => None,
    }
}

// ── The module declaration ──────────────────────────────────────────────

/// module := `(` Pascal (name | `[` Pascal name* `]`)* `)`
pub open spec fn module_end(s: Seq<(TokenKind, bool)>, p: int) -> Option<int> {
    match tok(s, p, TokenKind::LParen) {
        Some(q) => match tok(s, q, TokenKind::PascalIdent) {
            Some(q1) => match module_items_end(s, q1) {
                Some(r) => tok(s, r, TokenKind::RParen),
                None => None,
            },
            None => None,
        },
        None => None,
    }
}

/// The exports and imports of the module declaration, up to its `)`.
pub open spec fn module_items_end(s: Seq<(TokenKind, bool)>, q: int) -> Option<int>
    decreases s.len() - q,
{
    if !(0 <= q <= s.len()) {
        None
    } else if kind_at(s, q) == Some(TokenKind::RParen) {
        Some(q)
    } else if kind_at(s, q) is None {
        None
    } else if kind_at(s, q) == Some(TokenKind::LBracket) {
        match tok(s, after(s, q), TokenKind::PascalIdent) {
            Some(q1) => match names_end(s, q1) {
                Some(q2) => match tok(s, q2, TokenKind::RBracket) {
                    Some(r) => if q < r <= s.len() {
                        module_items_end(s, r)
                    } else {
                        None
                    },
                    None => None,
                },
                None => None,
            },
            None => None,
        }
    } else {
        match ident(s, q) {
            Some(r) => if q < r <= s.len() {
                module_items_end(s, r)
            } else {
                None
            },
            None => None,
        }
    }
}

/// The names of an import, up to its `]`.
pub open spec fn names_end(s: Seq<(TokenKind, bool)>, q: int) -> Option<int>
    decreases s.len() - q,
{
    if !(0 <= q <= s.len()) {
        None
    } else if kind_at(s, q) == Some(TokenKind::RBracket) {
        Some(q)
    } else {
        match ident(s, q) {
            Some(r) => if q < r <= s.len() {
                names_end(s, r)
            } else {
                None
            },
            None => None,
        }
    }
}

// ── Expressions and statements ──────────────────────────────────────────

/// expr := or
#[verifier::opaque]
pub open spec fn expr_end(s: Seq<(TokenKind, bool)>, p: int) -> Option<int>
    decreases s.len() - p, 9nat,
{
    if !(0 <= p <= s.len()) {
        None
    } else {
        or_end(s, p)
    }
}

/// or := and (`||` and)*
#[verifier::opaque]
pub open spec fn or_end(s: Seq<(TokenKind, bool)>, p: int) -> Option<int>
    decreases s.len() - p, 8nat,
{
    if !(0 <= p <= s.len()) {
        None
    } else {
        match and_end(s, p) {
            Some(q) => if p < q <= s.len() {
                or_rest_end(s, q)
            } else {
                None
            },
            None => None,
        }
    }
}

/// The `|| and` that follow the first operand of an `or`.
#[verifier::opaque]
pub open spec fn or_rest_end(s: Seq<(TokenKind, bool)>, q: int) -> Option<int>
    decreases s.len() - q, 0nat,
{
    if !(0 <= q <= s.len()) {
        None
    } else if kind_at(s, q) == Some(TokenKind::LogicalOr) {
        let q1 = after(s, q);
        if q < q1 <= s.len() {
            match and_end(s, q1) {
                Some(r) => if q1 < r <= s.len() {
                    or_rest_end(s, r)
                } else {
                    None
                },
                None => None,
            }
        } else {
            None
        }
    } else {
        Some(q)
    }
}

/// and := compare (`&&` compare)*
#[verifier::opaque]
pub open spec fn and_end(s: Seq<(TokenKind, bool)>, p: int) -> Option<int>
    decreases s.len() - p, 7nat,
{
    if !(0 <= p <= s.len()) {
        None
    } else {
        match compare_end(s, p) {
            Some(q) => if p < q <= s.len() {
                and_rest_end(s, q)
            } else {
                None
            },
            None => None,
        }
    }
}

/// The `&& compare` that follow the first operand of an `and`.
#[verifier::opaque]
pub open spec fn and_rest_end(s: Seq<(TokenKind, bool)>, q: int) -> Option<int>
    decreases s.len() - q, 0nat,
{
    if !(0 <= q <= s.len()) {
        None
    } else if kind_at(s, q) == Some(TokenKind::LogicalAnd) {
        let q1 = after(s, q);
        if q < q1 <= s.len() {
            match compare_end(s, q1) {
                Some(r) => if q1 < r <= s.len() {
                    and_rest_end(s, r)
                } else {
                    None
                },
                None => None,
            }
        } else {
            None
        }
    } else {
        Some(q)
    }
}

/// The comparison operators.
pub open spec fn is_comparison(k: TokenKind) -> bool {
    ||| k == TokenKind::DoubleEquals
    ||| k == TokenKind::NotEqual
    ||| k == TokenKind::LessThan
    ||| k == TokenKind::GreaterThan
    ||| k == TokenKind::LessThanOrEqual
    ||| k == TokenKind::GreaterThanOrEqual
}

/// compare := add (comparison add)?
#[verifier::opaque]
pub open spec fn compare_end(s: Seq<(TokenKind, bool)>, p: int) -> Option<int>
    decreases s.len() - p, 6nat,
{
    if !(0 <= p <= s.len()) {
        None
    } else {
        match add_end(s, p) {
            Some(q) => if p < q <= s.len() {
                match kind_at(s, q) {
                    Some(k) => if is_comparison(k) {
                        let q1 = after(s, q);
                        if q < q1 <= s.len() {
                            add_end(s, q1)
                        } else {
                            None
                        }
                    } else {
                        Some(q)
                    },
                    None => Some(q),
                }
            } else {
                None
            },
            None => None,
        }
    }
}

/// add := mul ((`+` | `-`) mul)*
#[verifier::opaque]
pub open spec fn add_end(s: Seq<(TokenKind, bool)>, p: int) -> Option<int>
    decreases s.len() - p, 5nat,
{
    if !(0 <= p <= s.len()) {
        None
    } else {
        match mul_end(s, p) {
            Some(q) => if p < q <= s.len() {
                add_rest_end(s, q)
            } else {
                None
            },
            None => None,
        }
    }
}

/// The `+ mul` and `- mul` that follow the first operand of an `add`.
#[verifier::opaque]
pub open spec fn add_rest_end(s: Seq<(TokenKind, bool)>, q: int) -> Option<int>
    decreases s.len() - q, 0nat,
{
    if !(0 <= q <= s.len()) {
        None
    } else if kind_at(s, q) == Some(TokenKind::Plus) || kind_at(s, q) == Some(TokenKind::Minus) {
        let q1 = after(s, q);
        if q < q1 <= s.len() {
            match mul_end(s, q1) {
                Some(r) => if q1 < r <= s.len() {
                    add_rest_end(s, r)
                } else {
                    None
                },
                None => None,
            }
        } else {
            None
        }
    } else {
        Some(q)
    }
}

/// mul := postfix ((`*` | `%`) postfix)*
#[verifier::opaque]
pub open spec fn mul_end(s: Seq<(TokenKind, bool)>, p: int) -> Option<int>
    decreases s.len() - p, 4nat,
{
    if !(0 <= p <= s.len()) {
        None
    } else {
        match postfix_end(s, p) {
            Some(q) => if p < q <= s.len() {
                mul_rest_end(s, q)
            } else {
                None
            },
            None => None,
        }
    }
}

/// The `* postfix` and `% postfix` that follow the first operand of a `mul`.
#[verifier::opaque]
pub open spec fn mul_rest_end(s: Seq<(TokenKind, bool)>, q: int) -> Option<int>
    decreases s.len() - q, 0nat,
{
    if !(0 <= q <= s.len()) {
        None
    } else if kind_at(s, q) == Some(TokenKind::Star) || kind_at(s, q) == Some(TokenKind::Percent) {
        let q1 = after(s, q);
        if q < q1 <= s.len() {
            match postfix_end(s, q1) {
                Some(r) => if q1 < r <= s.len() {
                    mul_rest_end(s, r)
                } else {
                    None
                },
                None => None,
            }
        } else {
            None
        }
    } else {
        Some(q)
    }
}

/// postfix := atom (`.` Pascal | `.` camel (`(` expr* `)`)? | `?`)*
#[verifier::opaque]
pub open spec fn postfix_end(s: Seq<(TokenKind, bool)>, p: int) -> Option<int>
    decreases s.len() - p, 3nat,
{
    if !(0 <= p <= s.len()) {
        None
    } else {
        match atom_end(s, p) {
            Some(q) => if p < q <= s.len() {
                postfix_rest_end(s, q)
            } else {
                None
            },
            None => None,
        }
    }
}

/// The field accesses, method calls and `?` after an atom.
#[verifier::opaque]
pub open spec fn postfix_rest_end(s: Seq<(TokenKind, bool)>, q: int) -> Option<int>
    decreases s.len() - q, 0nat,
{
    if !(0 <= q <= s.len()) {
        None
    } else if kind_at(s, q) == Some(TokenKind::Dot) {
        let q1 = after(s, q);
        if kind_at(s, q1) == Some(TokenKind::PascalIdent) {
            let r = after(s, q1);
            if q < r <= s.len() {
                postfix_rest_end(s, r)
            } else {
                None
            }
        } else if kind_at(s, q1) == Some(TokenKind::CamelIdent) {
            let q2 = after(s, q1);
            if kind_at(s, q2) == Some(TokenKind::LParen) {
                let q3 = after(s, q2);
                if q < q3 <= s.len() {
                    match args_end(s, q3) {
                        Some(q4) => match tok(s, q4, TokenKind::RParen) {
                            Some(r) => if q < r <= s.len() {
                                postfix_rest_end(s, r)
                            } else {
                                None
                            },
                            None => None,
                        },
                        None => None,
                    }
                } else {
                    None
                }
            } else if q < q2 <= s.len() {
                postfix_rest_end(s, q2)
            } else {
                None
            }
        } else {
            None
        }
    } else if kind_at(s, q) == Some(TokenKind::Question) {
        let r = after(s, q);
        if q < r <= s.len() {
            postfix_rest_end(s, r)
        } else {
            None
        }
    } else {
        Some(q)
    }
}

/// Call arguments `expr*`, up to a `)` that is left unread.
#[verifier::opaque]
pub open spec fn args_end(s: Seq<(TokenKind, bool)>, q: int) -> Option<int>
    decreases s.len() - q, 11nat,
{
    if !(0 <= q <= s.len()) {
        None
    } else if kind_at(s, q) == Some(TokenKind::RParen) {
        Some(q)
    } else {
        match expr_end(s, q) {
            Some(r) => if q < r <= s.len() {
                args_end(s, r)
            } else {
                None
            },
            None => None,
        }
    }
}

/// Field initializers `(Pascal expr)*`, up to a `}` that is left unread.
#[verifier::opaque]
pub open spec fn field_inits_end(s: Seq<(TokenKind, bool)>, q: int) -> Option<int>
    decreases s.len() - q, 11nat,
{
    if !(0 <= q <= s.len()) {
        None
    } else if kind_at(s, q) == Some(TokenKind::RBrace) {
        Some(q)
    } else if kind_at(s, q) is None {
        None
    } else {
        match tok(s, q, TokenKind::LParen) {
            Some(q1) => match tok(s, q1, TokenKind::PascalIdent) {
                Some(q2) => if q < q2 <= s.len() {
                    match expr_end(s, q2) {
                        Some(q3) => match tok(s, q3, TokenKind::RParen) {
                            Some(r) => if q < r <= s.len() {
                                field_inits_end(s, r)
                            } else {
                                None
                            },
                            None => None,
                        },
                        None => None,
                    }
                } else {
                    None
                },
                None => None,
            },
            None => None,
        }
    }
}

/// atom := `@` Pascal | Pascal (`/` Pascal | `/` camel `(` expr* `)`)? | literal
///       | block | match | loop | iteration | `{` Pascal field_init* `}`
#[verifier::opaque]
pub open spec fn atom_end(s: Seq<(TokenKind, bool)>, p: int) -> Option<int>
    decreases s.len() - p, 2nat,
{
    if !(0 <= p <= s.len()) {
        None
    } else {
        match kind_at(s, p) {
            Some(TokenKind::At) => tok(s, after(s, p), TokenKind::PascalIdent),
            Some(TokenKind::PascalIdent) => {
                let q = after(s, p);
                if kind_at(s, q) == Some(TokenKind::Slash) {
                    let q1 = after(s, q);
                    if kind_at(s, q1) == Some(TokenKind::PascalIdent) {
                        Some(after(s, q1))
                    } else if kind_at(s, q1) == Some(TokenKind::CamelIdent) {
                        match tok(s, after(s, q1), TokenKind::LParen) {
                            Some(q2) => if p < q2 <= s.len() {
                                match args_end(s, q2) {
                                    Some(q3) => tok(s, q3, TokenKind::RParen),
                                    None => None,
                                }
                            } else {
                                None
                            },
                            None => None,
                        }
                    } else {
                        None
                    }
                } else {
                    Some(q)
                }
            },
            Some(TokenKind::Integer) => Some(after(s, p)),
            Some(TokenKind::Float) => Some(after(s, p)),
            Some(TokenKind::StringLit) => Some(after(s, p)),
            Some(TokenKind::LBracket) => block_end(s, p),
            Some(TokenKind::LParenPipe) => match_end(s, p),
            Some(TokenKind::LBracketPipe) => loop_end(s, p),
            Some(TokenKind::LBracePipe) => iteration_end(s, p),
            Some(TokenKind::LBrace) => match tok(s, after(s, p), TokenKind::PascalIdent) {
                Some(q) => if p < q <= s.len() {
                    match field_inits_end(s, q) {
                        Some(r) => tok(s, r, TokenKind::RBrace),
                        None => None,
                    }
                } else {
                    None
                },
                None => None,
            },
            _ => None,
        }
    }
}

/// match := `(|` target? arm* `|)`, where a target is there unless `(` or `|)` follows.
#[verifier::opaque]
pub open spec fn match_end(s: Seq<(TokenKind, bool)>, p: int) -> Option<int>
    decreases s.len() - p, 1nat,
{
    if !(0 <= p <= s.len()) {
        None
    } else {
        match tok(s, p, TokenKind::LParenPipe) {
            Some(q) => if p < q <= s.len() {
                let target = if kind_at(s, q) != Some(TokenKind::LParen) && kind_at(s, q) != Some(
                    TokenKind::RPipeParen,
                ) {
                    expr_end(s, q)
                } else {
                    Some(q)
                };
                match target {
                    Some(q1) => if q <= q1 <= s.len() {
                        match arms_end(s, q1) {
                            Some(r) => tok(s, r, TokenKind::RPipeParen),
                            None => None,
                        }
                    } else {
                        None
                    },
                    None => None,
                }
            } else {
                None
            },
            None => None,
        }
    }
}

/// Match arms `(pattern (| pattern)*) expr`, up to a `|)` that is left unread.
#[verifier::opaque]
pub open spec fn arms_end(s: Seq<(TokenKind, bool)>, q: int) -> Option<int>
    decreases s.len() - q, 0nat,
{
    if !(0 <= q <= s.len()) {
        None
    } else if kind_at(s, q) == Some(TokenKind::RPipeParen) {
        Some(q)
    } else if kind_at(s, q) is None {
        None
    } else {
        match tok(s, q, TokenKind::LParen) {
            Some(q1) => match pattern_end(s, q1) {
                Some(q2) => match more_patterns_end(s, q2) {
                    Some(q3) => match tok(s, q3, TokenKind::RParen) {
                        Some(q4) => if q < q4 <= s.len() {
                            match expr_end(s, q4) {
                                Some(r) => if q < r <= s.len() {
                                    arms_end(s, r)
                                } else {
                                    None
                                },
                                None => None,
                            }
                        } else {
                            None
                        },
                        None => None,
                    },
                    None => None,
                },
                None => None,
            },
            None => None,
        }
    }
}

/// Statements up to a `close` token that is left unread.
#[verifier::opaque]
pub open spec fn stmts_end(s: Seq<(TokenKind, bool)>, q: int, close: TokenKind) -> Option<int>
    decreases s.len() - q, 12nat,
{
    if !(0 <= q <= s.len()) {
        None
    } else if kind_at(s, q) == Some(close) {
        Some(q)
    } else if kind_at(s, q) is None {
        None
    } else {
        match statement_end(s, q) {
            Some(r) => if q < r <= s.len() {
                stmts_end(s, r, close)
            } else {
                None
            },
            None => None,
        }
    }
}

/// loop := `[|` statement* `|]`
#[verifier::opaque]
pub open spec fn loop_end(s: Seq<(TokenKind, bool)>, p: int) -> Option<int>
    decreases s.len() - p, 1nat,
{
    if !(0 <= p <= s.len()) {
        None
    } else {
        match tok(s, p, TokenKind::LBracketPipe) {
            Some(q) => if p < q <= s.len() {
                match stmts_end(s, q, TokenKind::RPipeBracket) {
                    Some(r) => tok(s, r, TokenKind::RPipeBracket),
                    None => None,
                }
            } else {
                None
            },
            None => None,
        }
    }
}

/// block := `[` statement* `]`
#[verifier::opaque]
pub open spec fn block_end(s: Seq<(TokenKind, bool)>, p: int) -> Option<int>
    decreases s.len() - p, 1nat,
{
    if !(0 <= p <= s.len()) {
        None
    } else {
        match tok(s, p, TokenKind::LBracket) {
            Some(q) => if p < q <= s.len() {
                match stmts_end(s, q, TokenKind::RBracket) {
                    Some(r) => tok(s, r, TokenKind::RBracket),
                    None => None,
                }
            } else {
                None
            },
            None => None,
        }
    }
}

/// iteration := `{|` expr block `|}`
#[verifier::opaque]
pub open spec fn iteration_end(s: Seq<(TokenKind, bool)>, p: int) -> Option<int>
    decreases s.len() - p, 1nat,
{
    if !(0 <= p <= s.len()) {
        None
    } else {
        match tok(s, p, TokenKind::LBracePipe) {
            Some(q) => if p < q <= s.len() {
                match expr_end(s, q) {
                    Some(q1) => if q < q1 <= s.len() {
                        match block_end(s, q1) {
                            Some(r) => tok(s, r, TokenKind::RPipeBrace),
                            None => None,
                        }
                    } else {
                        None
                    },
                    None => None,
                }
            } else {
                None
            },
            None => None,
        }
    }
}

/// The tokens after `@Name` that make a statement an expression instead of an instance.
pub open spec fn continues_expr(k: TokenKind) -> bool {
    ||| k == TokenKind::Dot
    ||| k == TokenKind::Question
    ||| k == TokenKind::Plus
    ||| k == TokenKind::Minus
    ||| k == TokenKind::Star
    ||| k == TokenKind::Percent
    ||| is_comparison(k)
    ||| k == TokenKind::LogicalAnd
    ||| k == TokenKind::LogicalOr
}

/// Where the value of an instance starts after its name at `q`: past a type annotation
/// `(type)` when one reads, else at `q`.
pub open spec fn annotation_end(s: Seq<(TokenKind, bool)>, q: int) -> int {
    if kind_at(s, q) == Some(TokenKind::LParen) {
        match type_end(s, after(s, q)) {
            Some(r) => if kind_at(s, r) == Some(TokenKind::RParen) {
                after(s, r)
            } else {
                q
            },
            None => q,
        }
    } else {
        q
    }
}

/// statement := `^` expr | loop | iteration | `(` Pascal type `)`
///            | `~@` Pascal (`.` camel `(` expr* `)` | expr)
///            | `@` Pascal continuing an expression, read as that expression
///            | `@` Pascal (`(` type `)`)? expr | expr
#[verifier::opaque]
pub open spec fn statement_end(s: Seq<(TokenKind, bool)>, p: int) -> Option<int>
    decreases s.len() - p, 10nat,
{
    if !(0 <= p <= s.len()) {
        None
    } else {
        match kind_at(s, p) {
            Some(TokenKind::Caret) => {
                let q = after(s, p);
                if p < q <= s.len() {
                    expr_end(s, q)
                } else {
                    None
                }
            },
            Some(TokenKind::LBracketPipe) => loop_end(s, p),
            Some(TokenKind::LBracePipe) => iteration_end(s, p),
            Some(TokenKind::LParen) => match tok(s, after(s, p), TokenKind::PascalIdent) {
                Some(q) => match type_end(s, q) {
                    Some(r) => tok(s, r, TokenKind::RParen),
                    None => None,
                },
                None => None,
            },
            Some(TokenKind::Tilde) => match tok(s, after(s, p), TokenKind::At) {
                Some(q) => match tok(s, q, TokenKind::PascalIdent) {
                    Some(q1) => if p < q1 <= s.len() {
                        if kind_at(s, q1) == Some(TokenKind::Dot) {
                            match tok(s, after(s, q1), TokenKind::CamelIdent) {
                                Some(q2) => match tok(s, q2, TokenKind::LParen) {
                                    Some(q3) => if p < q3 <= s.len() {
                                        match args_end(s, q3) {
                                            Some(q4) => tok(s, q4, TokenKind::RParen),
                                            None => None,
                                        }
                                    } else {
                                        None
                                    },
                                    None => None,
                                },
                                None => None,
                            }
                        } else {
                            expr_end(s, q1)
                        }
                    } else {
                        None
                    },
                    None => None,
                },
                None => None,
            },
            Some(TokenKind::At) => match tok(s, after(s, p), TokenKind::PascalIdent) {
                Some(q) => if p < q <= s.len() {
                    if kind_at(s, q) is Some && continues_expr(kind_at(s, q)->0) {
                        expr_end(s, p)
                    } else {
                        let v = annotation_end(s, q);
                        if p < v <= s.len() {
                            expr_end(s, v)
                        } else {
                            None
                        }
                    }
                } else {
                    None
                },
                None => None,
            },
            _ => expr_end(s, p),
        }
    }
}

// ── Definitions ─────────────────────────────────────────────────────────

/// struct member := `(` Pascal type `)` | Pascal
pub open spec fn struct_child_end(s: Seq<(TokenKind, bool)>, p: int) -> Option<int> {
    match kind_at(s, p) {
        Some(TokenKind::LParen) => match tok(s, after(s, p), TokenKind::PascalIdent) {
            Some(q) => match type_end(s, q) {
                Some(r) => tok(s, r, TokenKind::RParen),
                None => None,
            },
            None => None,
        },
        Some(TokenKind::PascalIdent) => Some(after(s, p)),
        _ => None,
    }
}

/// struct := `{` Pascal member* `}`
pub open spec fn struct_end(s: Seq<(TokenKind, bool)>, p: int) -> Option<int> {
    match tok(s, p, TokenKind::LBrace) {
        Some(q) => match tok(s, q, TokenKind::PascalIdent) {
            Some(q1) => match struct_items_end(s, q1) {
                Some(r) => tok(s, r, TokenKind::RBrace),
                None => None,
            },
            None => None,
        },
        None => None,
    }
}

/// The members of a struct, up to its `}`.
pub open spec fn struct_items_end(s: Seq<(TokenKind, bool)>, q: int) -> Option<int>
    decreases s.len() - q,
{
    if !(0 <= q <= s.len()) {
        None
    } else if kind_at(s, q) == Some(TokenKind::RBrace) {
        Some(q)
    } else if kind_at(s, q) is None {
        None
    } else {
        match struct_child_end(s, q) {
            Some(r) => if q < r <= s.len() {
                struct_items_end(s, r)
            } else {
                None
            },
            None => None,
        }
    }
}

/// enum member := `(` Pascal type? `)` | struct | Pascal
pub open spec fn variant_end(s: Seq<(TokenKind, bool)>, p: int) -> Option<int> {
    match kind_at(s, p) {
        Some(TokenKind::LParen) => match tok(s, after(s, p), TokenKind::PascalIdent) {
            Some(q) => if kind_at(s, q) == Some(TokenKind::RParen) {
                Some(after(s, q))
            } else {
                match type_end(s, q) {
                    Some(r) => tok(s, r, TokenKind::RParen),
                    None => None,
                }
            },
            None => None,
        },
        Some(TokenKind::LBrace) => struct_end(s, p),
        Some(TokenKind::PascalIdent) => Some(after(s, p)),
        _ => None,
    }
}

/// The members of an enum, up to its `)`.
pub open spec fn variants_end(s: Seq<(TokenKind, bool)>, q: int) -> Option<int>
    decreases s.len() - q,
{
    if !(0 <= q <= s.len()) {
        None
    } else if kind_at(s, q) == Some(TokenKind::RParen) {
        Some(q)
    } else if kind_at(s, q) is None {
        None
    } else {
        match variant_end(s, q) {
            Some(r) => if q < r <= s.len() {
                variants_end(s, r)
            } else {
                None
            },
            None => None,
        }
    }
}

/// newtype := Pascal type
pub open spec fn newtype_end(s: Seq<(TokenKind, bool)>, p: int) -> Option<int> {
    match tok(s, p, TokenKind::PascalIdent) {
        Some(q) => type_end(s, q),
        None => None,
    }
}

/// A token that starts a parameter.
pub open spec fn starts_param(k: Option<TokenKind>) -> bool {
    k == Some(TokenKind::Colon) || k == Some(TokenKind::Tilde) || k == Some(TokenKind::At)
}

/// signature := `(` camel param* type? `)`
pub open spec fn sig_end(s: Seq<(TokenKind, bool)>, p: int) -> Option<int> {
    match tok(s, p, TokenKind::LParen) {
        Some(q) => match tok(s, q, TokenKind::CamelIdent) {
            Some(q1) => match sig_items_end(s, q1) {
                Some(r) => tok(s, r, TokenKind::RParen),
                None => None,
            },
            None => None,
        },
        None => None,
    }
}

/// The parameters of a signature and the return type that ends them, up to its `)`.
pub open spec fn sig_items_end(s: Seq<(TokenKind, bool)>, q: int) -> Option<int>
    decreases s.len() - q,
{
    if !(0 <= q <= s.len()) {
        None
    } else if kind_at(s, q) == Some(TokenKind::RParen) {
        Some(q)
    } else if kind_at(s, q) is None {
        None
    } else if starts_param(kind_at(s, q)) {
        match param_end(s, q) {
            Some(r) => if q < r <= s.len() {
                sig_items_end(s, r)
            } else {
                None
            },
            None => None,
        }
    } else {
        type_end(s, q)
    }
}

/// The signatures of a trait declaration, up to its `]`.
pub open spec fn sigs_end(s: Seq<(TokenKind, bool)>, q: int) -> Option<int>
    decreases s.len() - q,
{
    if !(0 <= q <= s.len()) {
        None
    } else if kind_at(s, q) == Some(TokenKind::RBracket) {
        Some(q)
    } else if kind_at(s, q) is None {
        None
    } else {
        match sig_end(s, q) {
            Some(r) => if q < r <= s.len() {
                sigs_end(s, r)
            } else {
                None
            },
            None => None,
        }
    }
}

/// method body := block | match | loop | iteration | `{` Pascal field_init* `}`
pub open spec fn body_end(s: Seq<(TokenKind, bool)>, p: int) -> Option<int> {
    match kind_at(s, p) {
        Some(TokenKind::LBracket) => block_end(s, p),
        Some(TokenKind::LParenPipe) => match_end(s, p),
        Some(TokenKind::LBracketPipe) => loop_end(s, p),
        Some(TokenKind::LBracePipe) => iteration_end(s, p),
        Some(TokenKind::LBrace) => match tok(s, after(s, p), TokenKind::PascalIdent) {
            Some(q) => match field_inits_end(s, q) {
                Some(r) => tok(s, r, TokenKind::RBrace),
                None => None,
            },
            None => None,
        },
        _ => None,
    }
}

/// A token that starts a method body or closes the method.
pub open spec fn ends_method_head(k: Option<TokenKind>) -> bool {
    ||| k == Some(TokenKind::LBracket)
    ||| k == Some(TokenKind::LParenPipe)
    ||| k == Some(TokenKind::LBracketPipe)
    ||| k == Some(TokenKind::LBracePipe)
    ||| k == Some(TokenKind::LBrace)
    ||| k == Some(TokenKind::RParen)
}

/// The parameters and return types of a method, up to its body or its `)`.
pub open spec fn method_head_end(s: Seq<(TokenKind, bool)>, q: int) -> Option<int>
    decreases s.len() - q,
{
    if !(0 <= q <= s.len()) {
        None
    } else if ends_method_head(kind_at(s, q)) {
        Some(q)
    } else {
        let r = if starts_param(kind_at(s, q)) {
            param_end(s, q)
        } else {
            type_end(s, q)
        };
        match r {
            Some(r) => if q < r <= s.len() {
                method_head_end(s, r)
            } else {
                None
            },
            None => None,
        }
    }
}

/// method := `(` camel (param | type)* body? `)`
pub open spec fn method_end(s: Seq<(TokenKind, bool)>, p: int) -> Option<int> {
    match tok(s, p, TokenKind::LParen) {
        Some(q) => match tok(s, q, TokenKind::CamelIdent) {
            Some(q1) => match method_head_end(s, q1) {
                Some(q2) => if kind_at(s, q2) == Some(TokenKind::RParen) {
                    tok(s, q2, TokenKind::RParen)
                } else {
                    match body_end(s, q2) {
                        Some(r) => tok(s, r, TokenKind::RParen),
                        None => None,
                    }
                },
                None => None,
            },
            None => None,
        },
        None => None,
    }
}

/// The methods of a trait implementation, up to its inner `]`.
pub open spec fn methods_end(s: Seq<(TokenKind, bool)>, q: int) -> Option<int>
    decreases s.len() - q,
{
    if !(0 <= q <= s.len()) {
        None
    } else if kind_at(s, q) == Some(TokenKind::RBracket) {
        Some(q)
    } else if kind_at(s, q) is None {
        None
    } else {
        match method_end(s, q) {
            Some(r) => if q < r <= s.len() {
                methods_end(s, r)
            } else {
                None
            },
            None => None,
        }
    }
}

/// trait impl := `[` camel Pascal `[` method* `]` `]`
pub open spec fn impl_end(s: Seq<(TokenKind, bool)>, p: int) -> Option<int> {
    match tok(s, p, TokenKind::LBracket) {
        Some(q) => match tok(s, q, TokenKind::CamelIdent) {
            Some(q1) => match tok(s, q1, TokenKind::PascalIdent) {
                Some(q2) => match tok(s, q2, TokenKind::LBracket) {
                    Some(q3) => match methods_end(s, q3) {
                        Some(q4) => match tok(s, q4, TokenKind::RBracket) {
                            Some(r) => tok(s, r, TokenKind::RBracket),
                            None => None,
                        },
                        None => None,
                    },
                    None => None,
                },
                None => None,
            },
            None => None,
        },
        None => None,
    }
}

/// A literal token.
pub open spec fn is_literal(k: Option<TokenKind>) -> bool {
    k == Some(TokenKind::Integer) || k == Some(TokenKind::Float) || k == Some(TokenKind::StringLit)
}

/// const := `{|` Pascal type literal `|}`
pub open spec fn const_end(s: Seq<(TokenKind, bool)>, p: int) -> Option<int> {
    match tok(s, p, TokenKind::LBracePipe) {
        Some(q) => match tok(s, q, TokenKind::PascalIdent) {
            Some(q1) => match type_end(s, q1) {
                Some(q2) => if is_literal(kind_at(s, q2)) {
                    tok(s, after(s, q2), TokenKind::RPipeBrace)
                } else {
                    None
                },
                None => None,
            },
            None => None,
        },
        None => None,
    }
}

/// The parameters (each starting with `@`) and return types of a foreign function, up to
/// its `)`.
pub open spec fn ffi_fn_items_end(s: Seq<(TokenKind, bool)>, q: int) -> Option<int>
    decreases s.len() - q,
{
    if !(0 <= q <= s.len()) {
        None
    } else if kind_at(s, q) == Some(TokenKind::RParen) {
        Some(q)
    } else if kind_at(s, q) is None {
        None
    } else {
        let r = if kind_at(s, q) == Some(TokenKind::At) {
            param_end(s, q)
        } else {
            type_end(s, q)
        };
        match r {
            Some(r) => if q < r <= s.len() {
                ffi_fn_items_end(s, r)
            } else {
                None
            },
            None => None,
        }
    }
}

/// foreign function := `(` camel (`@`param | type)* `)`
pub open spec fn ffi_fn_end(s: Seq<(TokenKind, bool)>, p: int) -> Option<int> {
    match tok(s, p, TokenKind::LParen) {
        Some(q) => match tok(s, q, TokenKind::CamelIdent) {
            Some(q1) => match ffi_fn_items_end(s, q1) {
                Some(r) => tok(s, r, TokenKind::RParen),
                None => None,
            },
            None => None,
        },
        None => None,
    }
}

/// The functions of a foreign library, up to its `|)`.
pub open spec fn ffi_fns_end(s: Seq<(TokenKind, bool)>, q: int) -> Option<int>
    decreases s.len() - q,
{
    if !(0 <= q <= s.len()) {
        None
    } else if kind_at(s, q) == Some(TokenKind::RPipeParen) {
        Some(q)
    } else if kind_at(s, q) is None {
        None
    } else {
        match ffi_fn_end(s, q) {
            Some(r) => if q < r <= s.len() {
                ffi_fns_end(s, r)
            } else {
                None
            },
            None => None,
        }
    }
}

/// ffi := `(|` Pascal foreign_function* `|)`
pub open spec fn ffi_end(s: Seq<(TokenKind, bool)>, p: int) -> Option<int> {
    match tok(s, p, TokenKind::LParenPipe) {
        Some(q) => match tok(s, q, TokenKind::PascalIdent) {
            Some(q1) => match ffi_fns_end(s, q1) {
                Some(r) => tok(s, r, TokenKind::RPipeParen),
                None => None,
            },
            None => None,
        },
        None => None,
    }
}

/// root paren := `(` Pascal member* `)` | `(` camel `[` signature* `]` `)`
pub open spec fn root_paren_end(s: Seq<(TokenKind, bool)>, p: int) -> Option<int> {
    match tok(s, p, TokenKind::LParen) {
        Some(q) => match kind_at(s, q) {
            Some(TokenKind::PascalIdent) => match variants_end(s, after(s, q)) {
                Some(r) => tok(s, r, TokenKind::RParen),
                None => None,
            },
            Some(TokenKind::CamelIdent) => match tok(s, after(s, q), TokenKind::LBracket) {
                Some(q1) => match sigs_end(s, q1) {
                    Some(q2) => match tok(s, q2, TokenKind::RBracket) {
                        Some(r) => tok(s, r, TokenKind::RParen),
                        None => None,
                    },
                    None => None,
                },
                None => None,
            },
            _ => None,
        },
        None => None,
    }
}

/// root := root paren | trait impl | struct | const | ffi | process | newtype,
/// where a process `[| statement* |]` reads as a loop does.
pub open spec fn root_child_end(s: Seq<(TokenKind, bool)>, p: int) -> Option<int> {
    match kind_at(s, p) {
        Some(TokenKind::LParen) => root_paren_end(s, p),
        Some(TokenKind::LBracket) => impl_end(s, p),
        Some(TokenKind::LBrace) => struct_end(s, p),
        Some(TokenKind::LBracePipe) => const_end(s, p),
        Some(TokenKind::LParenPipe) => ffi_end(s, p),
        Some(TokenKind::LBracketPipe) => loop_end(s, p),
        Some(TokenKind::PascalIdent) => newtype_end(s, p),
        _ => None,
    }
}

/// The top-level constructs after the module declaration, up to where only newlines
/// remain.
pub open spec fn roots_end(s: Seq<(TokenKind, bool)>, q: int) -> Option<int>
    decreases s.len() - q,
{
    if !(0 <= q <= s.len()) {
        None
    } else if kind_at(s, q) is None {
        Some(q)
    } else {
        match root_child_end(s, q) {
            Some(r) => if q < r <= s.len() {
                roots_end(s, r)
            } else {
                None
            },
            None => None,
        }
    }
}

/// program := module root*, with nothing but newlines after it.
pub open spec fn program_end(s: Seq<(TokenKind, bool)>, p: int) -> Option<int> {
    match module_end(s, p) {
        Some(q) => roots_end(s, q),
        None => None,
    }
}

/// The tokens form a whole program.
pub open spec fn accepts(s: Seq<(TokenKind, bool)>) -> bool {
    program_end(s, 0) is Some
}

// ── Counts ──────────────────────────────────────────────────────────────

/// How many members an enum has from `q` on.
pub open spec fn variants_count(s: Seq<(TokenKind, bool)>, q: int) -> nat
    decreases s.len() - q,
{
    if !(0 <= q <= s.len()) || kind_at(s, q) == Some(TokenKind::RParen) || kind_at(s, q) is None {
        0
    } else {
        match variant_end(s, q) {
            Some(r) => if q < r <= s.len() {
                1 + variants_count(s, r)
            } else {
                0
            },
            None => 0,
        }
    }
}

/// How many members a struct has from `q` on.
pub open spec fn struct_items_count(s: Seq<(TokenKind, bool)>, q: int) -> nat
    decreases s.len() - q,
{
    if !(0 <= q <= s.len()) || kind_at(s, q) == Some(TokenKind::RBrace) || kind_at(s, q) is None {
        0
    } else {
        match struct_child_end(s, q) {
            Some(r) => if q < r <= s.len() {
                1 + struct_items_count(s, r)
            } else {
                0
            },
            None => 0,
        }
    }
}

/// How many signatures a trait declaration has from `q` on.
pub open spec fn sigs_count(s: Seq<(TokenKind, bool)>, q: int) -> nat
    decreases s.len() - q,
{
    if !(0 <= q <= s.len()) || kind_at(s, q) == Some(TokenKind::RBracket) || kind_at(s, q) is None {
        0
    } else {
        match sig_end(s, q) {
            Some(r) => if q < r <= s.len() {
                1 + sigs_count(s, r)
            } else {
                0
            },
            None => 0,
        }
    }
}

/// How many methods a trait implementation has from `q` on.
pub open spec fn methods_count(s: Seq<(TokenKind, bool)>, q: int) -> nat
    decreases s.len() - q,
{
    if !(0 <= q <= s.len()) || kind_at(s, q) == Some(TokenKind::RBracket) || kind_at(s, q) is None {
        0
    } else {
        match method_end(s, q) {
            Some(r) => if q < r <= s.len() {
                1 + methods_count(s, r)
            } else {
                0
            },
            None => 0,
        }
    }
}

/// How many functions a foreign library has from `q` on.
pub open spec fn ffi_fns_count(s: Seq<(TokenKind, bool)>, q: int) -> nat
    decreases s.len() - q,
{
    if !(0 <= q <= s.len()) || kind_at(s, q) == Some(TokenKind::RPipeParen) || kind_at(s, q) is None {
        0
    } else {
        match ffi_fn_end(s, q) {
            Some(r) => if q < r <= s.len() {
                1 + ffi_fns_count(s, r)
            } else {
                0
            },
            None => 0,
        }
    }
}

/// How many top-level constructs follow from `q` on.
pub open spec fn roots_count(s: Seq<(TokenKind, bool)>, q: int) -> nat
    decreases s.len() - q,
{
    if !(0 <= q <= s.len()) || kind_at(s, q) is None {
        0
    } else {
        match root_child_end(s, q) {
            Some(r) => if q < r <= s.len() {
                1 + roots_count(s, r)
            } else {
                0
            },
            None => 0,
        }
    }
}

} // verus!
