//! A token cursor that looks past newlines, with save, restore and adjacency.
use vstd::prelude::*;
use vstd::string::StringExecFns;
use crate::domain::Span;
use crate::token::{Spanned, Token, next_sig, token_debug};
use crate::token_stream::{span_of, tree_span};

verus! {

/// "expected X, got Y" for a cursor: the debug rendering of the token wanted, and of
/// the token found, or `EOF` where the input ends.
pub open spec fn mismatch_words(expected: Token, found: Option<Token>) -> Seq<char> {
    "expected "@ + token_debug(expected) + ", got "@ + match found {
        Some(t) => token_debug(t),
        None => "EOF"@,
    }
}

/// Builds the text of `mismatch_words`.
pub fn mismatch_message(expected: &Token, found: Option<&Token>) -> (r: String)
    ensures
        r@ == mismatch_words(*expected, match found {
            Some(t) => Some(*t),
            None => None,
        }),
{
    let mut m = String::from_str("expected ");
    let e = expected.debug_text();
    m.append(e.as_str());
    m.append(", got ");
    match found {
        Some(t) => {
            let d = t.debug_text();
            m.append(d.as_str());
        },
        None => m.append("EOF"),
    }
    m
}

/// A cursor over borrowed tokens. Newlines are looked past: `peek`, `advance` and
/// `expect` act on the first token at or after the position that is not a newline.
pub struct Cursor<'a> {
    tokens: &'a [Spanned],
    pos: usize,
}

impl<'a> Cursor<'a> {
    /// The tokens under the cursor.
    pub closed spec fn tokens(&self) -> Seq<Spanned> {
        self.tokens@
    }

    /// The position of the cursor.
    pub closed spec fn position(&self) -> int {
        self.pos as int
    }

    /// The index of the first token at or after the position that is not a newline
    /// (not below the length of the tokens when there is none).
    pub open spec fn next_index(&self) -> int {
        next_sig(self.tokens(), self.position())
    }

    /// A cursor at the first of `tokens`.
    pub fn new(tokens: &'a [Spanned]) -> (c: Self)
        ensures
            c.tokens() == tokens@,
            c.position() == 0,
    {
        Cursor { tokens, pos: 0 }
    }

    /// The position, to come back to with `restore`.
    pub fn pos(&self) -> (r: usize)
        ensures
            r == self.position(),
    {
        self.pos
    }

    /// Puts the cursor at `pos`.
    pub fn restore(&mut self, pos: usize)
        ensures
            final(self).tokens() == old(self).tokens(),
            final(self).position() == pos,
    {
        self.pos = pos;
    }

    /// The index of the next token that is not a newline, if there is one.
    fn skip_newlines_pos(&self) -> (r: Option<usize>)
        ensures
            match r {
                Some(p) => p == self.next_index() && p < self.tokens().len(),
                None => self.next_index() >= self.tokens().len(),
            },
    {
        let mut p = self.pos;
        while p < self.tokens.len()
            invariant
                self.pos <= p,
                next_sig(self.tokens@, p as int) == next_sig(self.tokens@, self.pos as int),
            decreases self.tokens@.len() - p,
        {
            if !matches!(self.tokens[p].token, Token::Newline) {
                return Some(p);
            }
            p += 1;
        }
        None
    }

    /// The next token that is not a newline.
    pub fn peek(&self) -> (r: Option<&Spanned>)
        ensures
            match r {
                Some(s) => self.next_index() < self.tokens().len() && *s == self.tokens()[self.next_index()],
                None => self.next_index() >= self.tokens().len(),
            },
    {
        match self.skip_newlines_pos() {
            Some(p) => Some(&self.tokens[p]),
            None => None,
        }
    }

    /// Moves past the next token that is not a newline; where there is none, stays.
    pub fn advance(&mut self)
        ensures
            final(self).tokens() == old(self).tokens(),
            final(self).position() == if old(self).next_index() < old(self).tokens().len() {
                old(self).next_index() + 1
            } else {
                old(self).position()
            },
    {
        let n = self.tokens.len();
        if let Some(p) = self.skip_newlines_pos() {
            assert(p < n);
            self.pos = p + 1;
        }
    }

    /// The span of the next token that is not a newline; where there is none, an
    /// empty span at 0.
    pub fn span(&self) -> (r: Span)
        ensures
            r == if self.next_index() < self.tokens().len() {
                span_of(self.tokens()[self.next_index()])
            } else {
                Span { start: 0, end: 0 }
            },
    {
        match self.peek() {
            Some(tok) => tree_span(tok),
            None => Span { start: 0, end: 0 },
        }
    }

    /// At the start, true; otherwise the next token that is not a newline starts
    /// exactly where the token before the position ends (false where either is missing).
    pub fn is_adjacent(&self) -> (r: bool)
        ensures
            r == (self.position() == 0 || (self.position() - 1 < self.tokens().len()
                && self.next_index() < self.tokens().len() && self.tokens()[self.next_index()].span.start
                == self.tokens()[self.position() - 1].span.end)),
    {
        if self.pos == 0 {
            return true;
        }
        let before = self.pos - 1;
        if before < self.tokens.len() {
            match self.peek() {
                Some(curr) => curr.span.start == self.tokens[before].span.end,
                None => false,
            }
        } else {
            false
        }
    }

    /// Only newlines, or nothing, are left.
    pub fn at_end(&self) -> (r: bool)
        ensures
            r == (self.next_index() >= self.tokens().len()),
    {
        self.skip_newlines_pos().is_none()
    }

    /// Consumes the next token that is not a newline if it is `expected`; otherwise
    /// an error naming what was wanted and what was found, and the cursor stays.
    pub fn expect(&mut self, expected: &Token) -> (r: Result<(), String>)
        ensures
            final(self).tokens() == old(self).tokens(),
            match r {
                Ok(()) => {
                    &&& old(self).next_index() < old(self).tokens().len()
                    &&& old(self).tokens()[old(self).next_index()].token.spec_same(expected)
                    &&& final(self).position() == old(self).next_index() + 1
                },
                Err(e) => {
                    &&& !(old(self).next_index() < old(self).tokens().len() && old(
                        self,
                    ).tokens()[old(self).next_index()].token.spec_same(expected))
                    &&& e@ == mismatch_words(
                        *expected,
                        if old(self).next_index() < old(self).tokens().len() {
                            Some(old(self).tokens()[old(self).next_index()].token)
                        } else {
                            None
                        },
                    )
                    &&& final(self).position() == old(self).position()
                },
            },
    {
        match self.peek() {
            None => Err(mismatch_message(expected, None)),
            Some(tok) => {
                if tok.token.same(expected) {
                    self.advance();
                    Ok(())
                } else {
                    Err(mismatch_message(expected, Some(&tok.token)))
                }
            },
        }
    }
}

} // verus!
