//! A token cursor for the dialect machine: it looks past newlines when it reads, and
//! reports the spans of the tokens it reads and has read.
use vstd::prelude::*;
use crate::domain::Span;
use crate::engine::{mismatch_message, mismatch_words};
use crate::token::{Spanned, Token, next_sig};
use crate::token_stream::{span_of, tree_span};

verus! {

/// A cursor over borrowed tokens. `peek`, `advance` and `expect` look past newlines;
/// `at_end` and `is_adjacent` look at the position itself.
pub struct Cursor<'a> {
    tokens: &'a [Spanned],
    pos: usize,
}

impl<'a> Cursor<'a> {
    /// The tokens under the cursor.
    pub closed spec fn tokens(&self) -> Seq<Spanned> {
        self.tokens@
    }

    /// The position of the cursor.
    pub closed spec fn position(&self) -> int {
        self.pos as int
    }

    /// The index of the first token at or after the position that is not a newline
    /// (not below the length of the tokens when there is none).
    pub open spec fn next_index(&self) -> int {
        next_sig(self.tokens(), self.position())
    }

    /// The token found by looking past newlines, if any.
    pub open spec fn next_token(&self) -> Option<Token> {
        if self.next_index() < self.tokens().len() {
            Some(self.tokens()[self.next_index()].token)
        } else {
            None
        }
    }

    /// The span of the next token that is not a newline; where there is none, an empty
    /// span at 0.
    pub open spec fn spec_span(&self) -> Span {
        if self.next_index() < self.tokens().len() {
            span_of(self.tokens()[self.next_index()])
        } else {
            Span { start: 0, end: 0 }
        }
    }

    /// A cursor at the first of `tokens`.
    pub fn new(tokens: &'a [Spanned]) -> (c: Self)
        ensures
            c.tokens() == tokens@,
            c.position() == 0,
    {
        Cursor { tokens, pos: 0 }
    }

    /// The position, to come back to with `restore`.
    pub fn pos(&self) -> (r: usize)
        ensures
            r == self.position(),
    {
        self.pos
    }

    /// Puts the cursor at `pos`.
    pub fn restore(&mut self, pos: usize)
        ensures
            final(self).tokens() == old(self).tokens(),
            final(self).position() == pos,
    {
        self.pos = pos;
    }

    /// The position is past the last token (newlines left before it do not count as
    /// the end).
    pub fn at_end(&self) -> (r: bool)
        ensures
            r == (self.position() >= self.tokens().len()),
    {
        self.pos >= self.tokens.len()
    }

    /// The next token that is not a newline.
    pub fn peek(&self) -> (r: Option<&Token>)
        ensures
            match r {
                Some(t) => self.next_token() == Some(*t),
                None => self.next_token() is None,
            },
    {
        match self.peek_raw() {
            Some(s) => Some(&s.token),
            None => None,
        }
    }

    /// The next token that is not a newline, with its span.
    pub fn peek_raw(&self) -> (r: Option<&Spanned>)
        ensures
            match r {
                Some(s) => self.next_index() < self.tokens().len() && *s == self.tokens()[self.next_index()],
                None => self.next_index() >= self.tokens().len(),
            },
    {
        let mut p = self.pos;
        while p < self.tokens.len()
            invariant
                self.pos <= p,
                next_sig(self.tokens@, p as int) == next_sig(self.tokens@, self.pos as int),
            decreases self.tokens@.len() - p,
        {
            if !matches!(self.tokens[p].token, Token::Newline) {
                return Some(&self.tokens[p]);
            }
            p += 1;
        }
        None
    }

    /// Moves past the newlines at the position, then past the token after them, which
    /// it returns; where there is none, the position ends past the newlines and the
    /// result is `None`.
    pub fn advance(&mut self) -> (r: Option<&Spanned>)
        ensures
            final(self).tokens() == old(self).tokens(),
            match r {
                Some(s) => {
                    &&& old(self).next_index() < old(self).tokens().len()
                    &&& *s == old(self).tokens()[old(self).next_index()]
                    &&& final(self).position() == old(self).next_index() + 1
                },
                None => {
                    &&& old(self).next_index() >= old(self).tokens().len()
                    &&& final(self).position() == old(self).next_index()
                },
            },
    {
        while self.pos < self.tokens.len()
            invariant_except_break
                self.tokens@ == old(self).tokens@,
                next_sig(self.tokens@, self.pos as int) == next_sig(
                    old(self).tokens@,
                    old(self).pos as int,
                ),
            ensures
                self.tokens@ == old(self).tokens@,
                self.pos as int == next_sig(old(self).tokens@, old(self).pos as int),
            decreases self.tokens@.len() - self.pos,
        {
            if matches!(self.tokens[self.pos].token, Token::Newline) {
                self.pos += 1;
            } else {
                break;
            }
        }
        if self.pos < self.tokens.len() {
            let i = self.pos;
            self.pos = i + 1;
            Some(&self.tokens[i])
        } else {
            None
        }
    }

    /// The span of the next token that is not a newline; where there is none, an empty
    /// span at 0.
    pub fn span(&self) -> (r: Span)
        ensures
            r == self.spec_span(),
    {
        match self.peek_raw() {
            Some(tok) => tree_span(tok),
            None => Span { start: 0, end: 0 },
        }
    }

    /// The span of the token just before the position; at the start, an empty span at 0.
    pub fn last_span(&self) -> (r: Span)
        requires
            self.position() <= self.tokens().len(),
        ensures
            r == if self.position() > 0 {
                span_of(self.tokens()[self.position() - 1])
            } else {
                Span { start: 0, end: 0 }
            },
    {
        if self.pos > 0 {
            tree_span(&self.tokens[self.pos - 1])
        } else {
            Span { start: 0, end: 0 }
        }
    }

    /// Reads the next token that is not a newline and returns the span it had if it is
    /// `expected`. Whatever was found is consumed; the error names what was wanted and
    /// what was found.
    pub fn expect(&mut self, expected: &Token) -> (r: Result<Span, String>)
        ensures
            final(self).tokens() == old(self).tokens(),
            final(self).position() == if old(self).next_index() < old(self).tokens().len() {
                old(self).next_index() + 1
            } else {
                old(self).next_index()
            },
            match r {
                Ok(sp) => {
                    &&& old(self).next_index() < old(self).tokens().len()
                    &&& old(self).tokens()[old(self).next_index()].token.spec_same(expected)
                    &&& sp == old(self).spec_span()
                },
                Err(e) => {
                    &&& !(old(self).next_index() < old(self).tokens().len() && old(
                        self,
                    ).tokens()[old(self).next_index()].token.spec_same(expected))
                    &&& e@ == mismatch_words(*expected, old(self).next_token())
                },
            },
    {
        let sp = self.span();
        match self.advance() {
            Some(tok) => {
                if tok.token.same(expected) {
                    Ok(sp)
                } else {
                    Err(mismatch_message(expected, Some(&tok.token)))
                }
            },
            None => Err(mismatch_message(expected, None)),
        }
    }

    /// The token at the position starts exactly where the one before it ends; false at
    /// the start and past the end. Newlines are not looked past.
    pub fn is_adjacent(&self) -> (r: bool)
        ensures
            r == (0 < self.position() < self.tokens().len() && self.tokens()[self.position()
                - 1].span.end == self.tokens()[self.position()].span.start),
    {
        if self.pos == 0 || self.pos >= self.tokens.len() {
            return false;
        }
        let prev = &self.tokens[self.pos - 1];
        let curr = &self.tokens[self.pos];
        prev.span.end == curr.span.start
    }
}

} // verus!
