//! Token stream: a cursor over lexed tokens with save and restore.
use vstd::prelude::*;
use vstd::string::StringExecFns;
use crate::domain::Span;
use crate::error::ParseError;
use crate::token::{Spanned, Token, TokenKind, kind_name, next_sig, option_debug, option_debug_text};

verus! {

/// The tree span of a lexed token (its offsets taken as `u32`).
pub open spec fn span_of(s: Spanned) -> Span {
    Span { start: s.span.start as u32, end: s.span.end as u32 }
}

/// The tree span of a lexed token.
pub(crate) fn tree_span(s: &Spanned) -> (r: Span)
    ensures
        r == span_of(*s),
{
    Span { start: s.span.start as u32, end: s.span.end as u32 }
}

/// "got ..." for a diagnostic: the debug rendering of the token at `i` of `toks` in
/// `Some(..)`, or `None` where there is none.
pub open spec fn found_words(toks: Seq<Spanned>, i: int) -> Seq<char> {
    "got "@ + option_debug(if 0 <= i < toks.len() {
        Some(toks[i].token)
    } else {
        None
    })
}

/// "got ..." for a diagnostic: the token found, or `None`.
fn found_text(t: Option<&Token>) -> (r: String)
    ensures
        r@ == "got "@ + option_debug(match t {
            Some(tok) => Some(*tok),
            None => None,
        }),
{
    let mut m = String::from_str("got ");
    let d = option_debug_text(t);
    m.append(d.as_str());
    m
}

/// A cursor over a sequence of tokens. The cursor may be put anywhere by `restore`.
pub struct TokenStream {
    tokens: Vec<Spanned>,
    pos: usize,
}

impl TokenStream {
    /// The tokens of the stream.
    pub closed spec fn stream(&self) -> Seq<Spanned> {
        self.tokens@
    }

    /// The position of the cursor.
    pub closed spec fn cursor(&self) -> int {
        self.pos as int
    }

    /// The span reported at the cursor: the current token's, or past the end an empty
    /// span at the end of the last token (at 0 when there is none).
    pub open spec fn spec_span_here(&self) -> Span {
        let toks = self.stream();
        if 0 <= self.cursor() < toks.len() {
            span_of(toks[self.cursor()])
        } else if toks.len() > 0 {
            Span { start: toks.last().span.end as u32, end: toks.last().span.end as u32 }
        } else {
            Span { start: 0, end: 0 }
        }
    }

    /// The token at the cursor, if the cursor is on one.
    pub open spec fn spec_peek(&self) -> Option<Spanned> {
        if 0 <= self.cursor() < self.stream().len() {
            Some(self.stream()[self.cursor()])
        } else {
            None
        }
    }

    /// The cursor is past the last token.
    pub open spec fn spec_at_end(&self) -> bool {
        self.cursor() >= self.stream().len()
    }

    /// The current token starts exactly where the previous one ends.
    pub open spec fn spec_is_adjacent(&self) -> bool {
        0 < self.cursor() < self.stream().len() && self.stream()[self.cursor() - 1].span.end
            == self.stream()[self.cursor()].span.start
    }

    /// A stream over `tokens`, at the first one.
    pub fn new(tokens: Vec<Spanned>) -> (ts: TokenStream)
        ensures
            ts.stream() == tokens@,
            ts.cursor() == 0,
    {
        TokenStream { tokens, pos: 0 }
    }

    /// The token at the cursor, if the cursor is on one.
    pub fn peek(&self) -> (r: Option<&Spanned>)
        ensures
            self.spec_peek() == match r {
                Some(s) => Some(*s),
                None => None,
            },
            match r {
                Some(s) => self.cursor() < self.stream().len() && *s == self.stream()[self.cursor()],
                None => self.cursor() >= self.stream().len(),
            },
    {
        if self.pos < self.tokens.len() {
            Some(&self.tokens[self.pos])
        } else {
            None
        }
    }

    /// The token at the cursor without its span.
    pub fn peek_token(&self) -> (r: Option<&Token>)
        ensures
            match self.spec_peek() {
                Some(s) => r == Some(&s.token),
                None => r is None,
            },
            match r {
                Some(t) => self.cursor() < self.stream().len() && *t == self.stream()[self.cursor()].token,
                None => self.cursor() >= self.stream().len(),
            },
    {
        match self.peek() {
            Some(s) => Some(&s.token),
            None => None,
        }
    }

    /// Moves past the current token; at the end, stays.
    pub fn advance(&mut self)
        ensures
            final(self).stream() == old(self).stream(),
            final(self).cursor() == if old(self).cursor() < old(self).stream().len() {
                old(self).cursor() + 1
            } else {
                old(self).cursor()
            },
    {
        if self.pos < self.tokens.len() {
            self.pos += 1;
        }
    }

    /// The cursor, to come back to with `restore`.
    pub fn save(&self) -> (r: usize)
        ensures
            r == self.cursor(),
    {
        self.pos
    }

    /// Puts the cursor at `pos`.
    pub fn restore(&mut self, pos: usize)
        ensures
            final(self).stream() == old(self).stream(),
            final(self).cursor() == pos,
    {
        self.pos = pos;
    }

    /// The cursor is past the last token.
    pub fn at_end(&self) -> (r: bool)
        ensures
            r == self.spec_at_end(),
            r == (self.cursor() >= self.stream().len()),
    {
        self.pos >= self.tokens.len()
    }

    /// The span of the current token; past the end, an empty span where the input ends.
    pub fn span_here(&self) -> (r: Span)
        ensures
            r == self.spec_span_here(),
    {
        match self.peek() {
            Some(s) => tree_span(s),
            None => {
                let n = self.tokens.len();
                if n > 0 {
                    let end = self.tokens[n - 1].span.end as u32;
                    Span { start: end, end }
                } else {
                    Span { start: 0, end: 0 }
                }
            },
        }
    }

    /// The span of the token before the cursor; at the start, an empty span at 0.
    pub fn prev_span(&self) -> (r: Span)
        requires
            self.cursor() <= self.stream().len(),
        ensures
            r == if self.cursor() > 0 {
                span_of(self.stream()[self.cursor() - 1])
            } else {
                Span { start: 0, end: 0 }
            },
    {
        if self.pos > 0 {
            tree_span(&self.tokens[self.pos - 1])
        } else {
            Span { start: 0, end: 0 }
        }
    }

    /// The current token starts exactly where the previous one ends.
    pub fn is_adjacent(&self) -> (r: bool)
        ensures
            r == self.spec_is_adjacent(),
            r == (0 < self.cursor() < self.stream().len() && self.stream()[self.cursor()
                - 1].span.end == self.stream()[self.cursor()].span.start),
    {
        if self.pos == 0 || self.pos >= self.tokens.len() {
            return false;
        }
        let prev = &self.tokens[self.pos - 1];
        let curr = &self.tokens[self.pos];
        prev.span.end == curr.span.start
    }

    /// Moves past every newline at the cursor.
    pub fn skip_newlines(&mut self)
        ensures
            final(self).stream() == old(self).stream(),
            final(self).cursor() == next_sig(old(self).stream(), old(self).cursor()),
    {
        while self.pos < self.tokens.len() && self.tokens[self.pos].token.kind()
            == TokenKind::Newline
            invariant
                self.tokens@ == old(self).tokens@,
                old(self).pos <= self.pos,
                next_sig(self.tokens@, self.pos as int) == next_sig(
                    old(self).tokens@,
                    old(self).pos as int,
                ),
            decreases self.tokens@.len() - self.pos,
        {
            self.pos += 1;
        }
    }

    /// Consumes the current token if it is `expected`, returning its span; otherwise
    /// an error at the current span, and the cursor stays.
    pub fn expect(&mut self, expected: &Token) -> (r: Result<Span, ParseError>)
        ensures
            final(self).stream() == old(self).stream(),
            match r {
                Ok(sp) => {
                    &&& old(self).cursor() < old(self).stream().len()
                    &&& old(self).stream()[old(self).cursor()].token.spec_same(expected)
                    &&& sp == span_of(old(self).stream()[old(self).cursor()])
                    &&& final(self).cursor() == old(self).cursor() + 1
                },
                Err(e) => {
                    &&& !(old(self).cursor() < old(self).stream().len() && old(self).stream()[old(
                        self,
                    ).cursor()].token.spec_same(expected))
                    &&& e.message@ == "expected "@ + kind_name(expected.spec_kind()) + ", "@
                        + found_words(old(self).stream(), old(self).cursor())
                    &&& e.span == old(self).spec_span_here()
                    &&& e.context@.len() == 0
                    &&& final(self).cursor() == old(self).cursor()
                },
            },
    {
        let span = self.span_here();
        let hit = match self.peek_token() {
            Some(t) => t.same(expected),
            None => false,
        };
        if hit {
            self.advance();
            Ok(span)
        } else {
            let mut m = String::from_str("expected ");
            m.append(expected.describe());
            m.append(", ");
            let got = found_text(self.peek_token());
            m.append(got.as_str());
            Err(ParseError::new(m, span))
        }
    }

    /// Consumes a PascalCase identifier, returning its text and span.
    pub fn expect_pascal(&mut self) -> (r: Result<(String, Span), ParseError>)
        ensures
            final(self).stream() == old(self).stream(),
            match r {
                Ok((s, sp)) => {
                    &&& old(self).cursor() < old(self).stream().len()
                    &&& old(self).stream()[old(self).cursor()].token.spec_kind()
                        == TokenKind::PascalIdent
                    &&& s@ == old(self).stream()[old(self).cursor()].token.spec_ident()
                    &&& sp == span_of(old(self).stream()[old(self).cursor()])
                    &&& final(self).cursor() == old(self).cursor() + 1
                },
                Err(e) => {
                    &&& !(old(self).cursor() < old(self).stream().len() && old(self).stream()[old(
                        self,
                    ).cursor()].token.spec_kind() == TokenKind::PascalIdent)
                    &&& e.message@ == "expected PascalCase, "@ + found_words(
                        old(self).stream(),
                        old(self).cursor(),
                    )
                    &&& e.span == old(self).spec_span_here()
                    &&& e.context@.len() == 0
                    &&& final(self).cursor() == old(self).cursor()
                },
            },
    {
        let span = self.span_here();
        let name = match self.peek_token() {
            Some(Token::PascalIdent(s)) => Some(s.clone()),
            _ => None,
        };
        match name {
            Some(s) => {
                self.advance();
                Ok((s, span))
            },
            None => {
                let mut m = String::from_str("expected PascalCase, ");
                let got = found_text(self.peek_token());
                m.append(got.as_str());
                Err(ParseError::new(m, span))
            },
        }
    }

    /// Consumes a camelCase identifier, returning its text and span.
    pub fn expect_camel(&mut self) -> (r: Result<(String, Span), ParseError>)
        ensures
            final(self).stream() == old(self).stream(),
            match r {
                Ok((s, sp)) => {
                    &&& old(self).cursor() < old(self).stream().len()
                    &&& old(self).stream()[old(self).cursor()].token.spec_kind()
                        == TokenKind::CamelIdent
                    &&& s@ == old(self).stream()[old(self).cursor()].token.spec_ident()
                    &&& sp == span_of(old(self).stream()[old(self).cursor()])
                    &&& final(self).cursor() == old(self).cursor() + 1
                },
                Err(e) => {
                    &&& !(old(self).cursor() < old(self).stream().len() && old(self).stream()[old(
                        self,
                    ).cursor()].token.spec_kind() == TokenKind::CamelIdent)
                    &&& e.message@ == "expected camelCase, "@ + found_words(
                        old(self).stream(),
                        old(self).cursor(),
                    )
                    &&& e.span == old(self).spec_span_here()
                    &&& e.context@.len() == 0
                    &&& final(self).cursor() == old(self).cursor()
                },
            },
    {
        let span = self.span_here();
        let name = match self.peek_token() {
            Some(Token::CamelIdent(s)) => Some(s.clone()),
            _ => None,
        };
        match name {
            Some(s) => {
                self.advance();
                Ok((s, span))
            },
            None => {
                let mut m = String::from_str("expected camelCase, ");
                let got = found_text(self.peek_token());
                m.append(got.as_str());
                Err(ParseError::new(m, span))
            },
        }
    }
}

/// Restoring a saved cursor undoes whatever moved it: once a stream that still holds
/// the tokens it was saved from is put back at the saved position, its cursor, the token
/// it peeks, whether it is at the end, whether it is adjacent, and the span here are
/// what they were at the save. Every method that moves the cursor keeps the tokens.
pub proof fn law_restore_round_trip(saved: TokenStream, later: TokenStream, restored: TokenStream)
    requires
        later.stream() == saved.stream(),
        restored.stream() == later.stream(),
        restored.cursor() == saved.cursor(),
    ensures
        restored.cursor() == saved.cursor(),
        restored.spec_peek() == saved.spec_peek(),
        restored.spec_at_end() == saved.spec_at_end(),
        restored.spec_is_adjacent() == saved.spec_is_adjacent(),
        restored.spec_span_here() == saved.spec_span_here(),
{
}

/// The round trip over any run of moves: `states` are the stream at the save and after
/// each call that followed it (every one keeps the tokens), and `restored` is the last of
/// them put back at the saved position. It reads as the stream did at the save.
pub proof fn law_restore_after_moves(states: Seq<TokenStream>, restored: TokenStream)
    requires
        states.len() > 0,
        forall|i: int| 0 < i < states.len() ==> (#[trigger] states[i]).stream() == states[i - 1].stream(),
        restored.stream() == states.last().stream(),
        restored.cursor() == states[0].cursor(),
    ensures
        restored.cursor() == states[0].cursor(),
        restored.spec_peek() == states[0].spec_peek(),
        restored.spec_at_end() == states[0].spec_at_end(),
        restored.spec_is_adjacent() == states[0].spec_is_adjacent(),
        restored.spec_span_here() == states[0].spec_span_here(),
{
    lemma_same_stream_throughout(states, states.len() - 1);
    law_restore_round_trip(states[0], states.last(), restored);
}

proof fn lemma_same_stream_throughout(states: Seq<TokenStream>, k: int)
    requires
        0 <= k < states.len(),
        forall|i: int| 0 < i < states.len() ==> (#[trigger] states[i]).stream() == states[i - 1].stream(),
    ensures
        states[k].stream() == states[0].stream(),
    decreases k,
{
    if k > 0 {
        assert(states[k].stream() == states[k - 1].stream());
        lemma_same_stream_throughout(states, k - 1);
    }
}

} // verus!
