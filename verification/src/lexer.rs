//! Lexer: aski source text to tokens, longest match first.
use vstd::prelude::*;

use crate::std_string::{chars_of, piece};
use crate::token::{Spanned, Token, TokenKind, TokenSpan, kind_name};
use crate::text::decimal_digits;

verus! {

/// `c` is an ASCII uppercase letter.
pub open spec fn is_upper(c: char) -> bool {
    'A' <= c <= 'Z'
}

/// `c` is an ASCII lowercase letter.
pub open spec fn is_lower(c: char) -> bool {
    'a' <= c <= 'z'
}

/// `c` is an ASCII digit.
pub open spec fn is_digit(c: char) -> bool {
    '0' <= c <= '9'
}

/// `c` may continue an identifier.
pub open spec fn is_ident_char(c: char) -> bool {
    is_upper(c) || is_lower(c) || is_digit(c) || c == '_'
}

/// The first index at or after `j` that does not continue an identifier.
pub open spec fn ident_end(cs: Seq<char>, j: int) -> int
    decreases cs.len() - j,
{
    if 0 <= j < cs.len() && is_ident_char(cs[j]) {
        ident_end(cs, j + 1)
    } else {
        j
    }
}

/// The first index at or after `j` that is not a digit.
pub open spec fn digits_end(cs: Seq<char>, j: int) -> int
    decreases cs.len() - j,
{
    if 0 <= j < cs.len() && is_digit(cs[j]) {
        digits_end(cs, j + 1)
    } else {
        j
    }
}

/// The first index at or after `j` holding a double quote, or the length of `cs`.
pub open spec fn quote_from(cs: Seq<char>, j: int) -> int
    decreases cs.len() - j,
{
    if 0 <= j < cs.len() && cs[j] != '"' {
        quote_from(cs, j + 1)
    } else {
        j
    }
}

/// The value of a sequence of decimal digits.
pub open spec fn decimal_value(ds: Seq<char>) -> int
    decreases ds.len(),
{
    if ds.len() == 0 {
        0
    } else {
        decimal_value(ds.drop_last()) * 10 + (ds.last() as int - '0' as int)
    }
}

/// What a stretch of source is: blank, a token of some kind, or not a token.
#[derive(Debug, Clone, Copy, PartialEq, Eq, Structural)]
pub enum Lexeme {
    Blank,
    Emit(TokenKind),
    Invalid,
}

/// The letters and digits of identifiers and numbers are exactly the ASCII ones: the
/// 26 capital letters, the 26 small letters and the ten decimal digits.
pub proof fn law_ascii_character_classes(c: char)
    ensures
        is_upper(c) <==> set!['A', 'B', 'C', 'D', 'E', 'F', 'G', 'H', 'I', 'J', 'K', 'L', 'M', 'N', 'O', 'P', 'Q', 'R', 'S', 'T', 'U', 'V', 'W', 'X', 'Y', 'Z'].contains(c),
        is_lower(c) <==> set!['a', 'b', 'c', 'd', 'e', 'f', 'g', 'h', 'i', 'j', 'k', 'l', 'm', 'n', 'o', 'p', 'q', 'r', 's', 't', 'u', 'v', 'w', 'x', 'y', 'z'].contains(c),
        is_digit(c) <==> set!['0', '1', '2', '3', '4', '5', '6', '7', '8', '9'].contains(c),
{
}

/// A token that one character alone makes.
pub open spec fn single(c: char) -> Option<TokenKind> {
    if c == ')' {
        Some(TokenKind::RParen)
    } else if c == ']' {
        Some(TokenKind::RBracket)
    } else if c == '}' {
        Some(TokenKind::RBrace)
    } else if c == '@' {
        Some(TokenKind::At)
    } else if c == '~' {
        Some(TokenKind::Tilde)
    } else if c == ':' {
        Some(TokenKind::Colon)
    } else if c == '$' {
        Some(TokenKind::Dollar)
    } else if c == '*' {
        Some(TokenKind::Star)
    } else if c == '+' {
        Some(TokenKind::Plus)
    } else if c == '?' {
        Some(TokenKind::Question)
    } else if c == '^' {
        Some(TokenKind::Caret)
    } else if c == '.' {
        Some(TokenKind::Dot)
    } else if c == '/' {
        Some(TokenKind::Slash)
    } else if c == '-' {
        Some(TokenKind::Minus)
    } else if c == '%' {
        Some(TokenKind::Percent)
    } else {
        None
    }
}

/// The token that a character starts when the character after it is `next`,
/// with its length; `None` when `c` starts no punctuation.
pub open spec fn punct(c: char, next: Option<char>) -> Option<(Lexeme, int)> {
    if c == '(' {
        if next == Some('|') {
            Some((Lexeme::Emit(TokenKind::LParenPipe), 2))
        } else {
            Some((Lexeme::Emit(TokenKind::LParen), 1))
        }
    } else if c == '[' {
        if next == Some('|') {
            Some((Lexeme::Emit(TokenKind::LBracketPipe), 2))
        } else {
            Some((Lexeme::Emit(TokenKind::LBracket), 1))
        }
    } else if c == '{' {
        if next == Some('|') {
            Some((Lexeme::Emit(TokenKind::LBracePipe), 2))
        } else {
            Some((Lexeme::Emit(TokenKind::LBrace), 1))
        }
    } else if c == '|' {
        if next == Some(')') {
            Some((Lexeme::Emit(TokenKind::RPipeParen), 2))
        } else if next == Some(']') {
            Some((Lexeme::Emit(TokenKind::RPipeBracket), 2))
        } else if next == Some('}') {
            Some((Lexeme::Emit(TokenKind::RPipeBrace), 2))
        } else if next == Some('|') {
            Some((Lexeme::Emit(TokenKind::LogicalOr), 2))
        } else {
            Some((Lexeme::Emit(TokenKind::Pipe), 1))
        }
    } else if c == '&' {
        if next == Some('&') {
            Some((Lexeme::Emit(TokenKind::LogicalAnd), 2))
        } else {
            Some((Lexeme::Emit(TokenKind::Ampersand), 1))
        }
    } else if c == '=' {
        if next == Some('=') {
            Some((Lexeme::Emit(TokenKind::DoubleEquals), 2))
        } else {
            Some((Lexeme::Invalid, 1))
        }
    } else if c == '!' {
        if next == Some('=') {
            Some((Lexeme::Emit(TokenKind::NotEqual), 2))
        } else {
            Some((Lexeme::Invalid, 1))
        }
    } else if c == '<' {
        if next == Some('=') {
            Some((Lexeme::Emit(TokenKind::LessThanOrEqual), 2))
        } else {
            Some((Lexeme::Emit(TokenKind::LessThan), 1))
        }
    } else if c == '>' {
        if next == Some('=') {
            Some((Lexeme::Emit(TokenKind::GreaterThanOrEqual), 2))
        } else {
            Some((Lexeme::Emit(TokenKind::GreaterThan), 1))
        }
    } else {
        match single(c) {
            Some(k) => Some((Lexeme::Emit(k), 1)),
            None => None,
        }
    }
}

/// What the source holds at character `i`, and how many characters it spans.
pub open spec fn scan(cs: Seq<char>, i: int) -> (Lexeme, int) {
    let c = cs[i];
    let next = if i + 1 < cs.len() {
        Some(cs[i + 1])
    } else {
        None
    };
    if c == ' ' || c == '\t' || c == '\r' {
        (Lexeme::Blank, 1)
    } else if c == '\n' {
        (Lexeme::Emit(TokenKind::Newline), 1)
    } else if is_upper(c) {
        (Lexeme::Emit(TokenKind::PascalIdent), ident_end(cs, i + 1) - i)
    } else if is_lower(c) || c == '_' {
        (Lexeme::Emit(TokenKind::CamelIdent), ident_end(cs, i + 1) - i)
    } else if is_digit(c) {
        let d = digits_end(cs, i + 1);
        if d + 1 < cs.len() && cs[d] == '.' && is_digit(cs[d + 1]) {
            (Lexeme::Emit(TokenKind::Float), digits_end(cs, d + 2) - i)
        } else if decimal_value(cs.subrange(i, d)) <= i64::MAX {
            (Lexeme::Emit(TokenKind::Integer), d - i)
        } else {
            (Lexeme::Invalid, d - i)
        }
    } else if c == '"' {
        let q = quote_from(cs, i + 1);
        if q < cs.len() {
            (Lexeme::Emit(TokenKind::StringLit), q + 1 - i)
        } else {
            (Lexeme::Invalid, 1)
        }
    } else {
        match punct(c, next) {
            Some(p) => p,
            None => (Lexeme::Invalid, 1),
        }
    }
}

/// A token kind that stands for fixed punctuation text, rather than for a name, a
/// literal or a line break.
pub open spec fn is_punct_kind(k: TokenKind) -> bool {
    !(k is PascalIdent || k is CamelIdent || k is Integer || k is Float || k is StringLit
        || k is Newline)
}

/// Punctuation spells its own characters: what `punct` reads from `c` (and `next`, for a
/// two-character token) is a punctuation kind whose text is exactly those characters.
proof fn lemma_punct_text(c: char, next: Option<char>)
    ensures
        punct(c, next) matches Some((Lexeme::Emit(k), n)) ==> {
            &&& is_punct_kind(k)
            &&& (n == 1 && kind_name(k) == seq![c]) || (n == 2 && next is Some && kind_name(k)
                == seq![c, next->0])
        },
{
    reveal_strlit("(");
    reveal_strlit("(|");
    reveal_strlit("[");
    reveal_strlit("[|");
    reveal_strlit("{");
    reveal_strlit("{|");
    reveal_strlit("|)");
    reveal_strlit("|]");
    reveal_strlit("|}");
    reveal_strlit("||");
    reveal_strlit("|");
    reveal_strlit("&&");
    reveal_strlit("&");
    reveal_strlit("==");
    reveal_strlit("!=");
    reveal_strlit("<=");
    reveal_strlit("<");
    reveal_strlit(">=");
    reveal_strlit(">");
    reveal_strlit(")");
    reveal_strlit("]");
    reveal_strlit("}");
    reveal_strlit("@");
    reveal_strlit("~");
    reveal_strlit(":");
    reveal_strlit("$");
    reveal_strlit("*");
    reveal_strlit("+");
    reveal_strlit("?");
    reveal_strlit("^");
    reveal_strlit(".");
    reveal_strlit("/");
    reveal_strlit("-");
    reveal_strlit("%");
}

proof fn lemma_lex_from_punct_text(cs: Seq<char>, i: int)
    requires
        0 <= i,
    ensures
        forall|j: int|
            0 <= j < lex_from(cs, i).0.len() && is_punct_kind(#[trigger] lex_from(cs, i).0[j].0) ==> {
                let tk = lex_from(cs, i).0[j];
                &&& 0 <= tk.1 <= tk.2 <= cs.len()
                &&& kind_name(tk.0) == cs.subrange(tk.1, tk.2)
            },
    decreases cs.len() - i,
{
    if i < cs.len() {
        let (lx, n0) = scan(cs, i);
        let n = if n0 < 1 {
            1
        } else if n0 > cs.len() - i {
            cs.len() - i
        } else {
            n0
        };
        lemma_lex_from_punct_text(cs, i + n);
        lemma_lex_from_bounds(cs, i + n);
        let c = cs[i];
        let next = if i + 1 < cs.len() {
            Some(cs[i + 1])
        } else {
            None
        };
        lemma_punct_text(c, next);
        let rest = lex_from(cs, i + n);
        if let Lexeme::Emit(k) = lx {
            let all = seq![(k, i, i + n)] + rest.0;
            assert(lex_from(cs, i).0 == all);
            if is_punct_kind(k) {
                assert(punct(c, next) == Some((lx, n0)));
                if n0 == 1 {
                    assert(cs.subrange(i, i + 1) =~= seq![c]);
                } else {
                    assert(cs.subrange(i, i + 2) =~= seq![c, cs[i + 1]]);
                }
            }
            assert forall|j: int|
                0 <= j < all.len() && is_punct_kind(#[trigger] all[j].0) implies {
                    let tk = all[j];
                    &&& 0 <= tk.1 <= tk.2 <= cs.len()
                    &&& kind_name(tk.0) == cs.subrange(tk.1, tk.2)
                } by {
                if j > 0 {
                    assert(all[j] == rest.0[j - 1]);
                }
            }
        } else {
            assert(lex_from(cs, i).0 == rest.0);
        }
    }
}

proof fn lemma_lex_from_bounds(cs: Seq<char>, i: int)
    requires
        0 <= i,
    ensures
        forall|j: int|
            0 <= j < lex_from(cs, i).0.len() ==> i <= (#[trigger] lex_from(cs, i).0[j]).1
                <= lex_from(cs, i).0[j].2 <= cs.len(),
    decreases cs.len() - i,
{
    if i < cs.len() {
        let (lx, n0) = scan(cs, i);
        let n = if n0 < 1 {
            1
        } else if n0 > cs.len() - i {
            cs.len() - i
        } else {
            n0
        };
        lemma_lex_from_bounds(cs, i + n);
        let rest = lex_from(cs, i + n);
        if let Lexeme::Emit(k) = lx {
            let all = seq![(k, i, i + n)] + rest.0;
            assert(lex_from(cs, i).0 == all);
            assert forall|j: int| 0 <= j < all.len() implies i <= (#[trigger] all[j]).1 <= all[j].2
                <= cs.len() by {
                if j > 0 {
                    assert(all[j] == rest.0[j - 1]);
                }
            }
        } else {
            assert(lex_from(cs, i).0 == rest.0);
        }
    }
}

/// Every punctuation token that lexing gives spells, by its kind, exactly the source
/// characters it was read from: `%` reads as `%`, `<` as `<`, `(|` as `(|`, and no
/// character is read as another's token.
pub proof fn law_punctuation_spells_its_source(cs: Seq<char>)
    ensures
        forall|j: int|
            0 <= j < lex_tokens(cs).len() && is_punct_kind(#[trigger] lex_tokens(cs)[j].0) ==> {
                let tk = lex_tokens(cs)[j];
                &&& 0 <= tk.1 <= tk.2 <= cs.len()
                &&& kind_name(tk.0) == cs.subrange(tk.1, tk.2)
            },
{
    lemma_lex_from_punct_text(cs, 0);
}

/// The tokens (kind and character range) and the error positions of `cs` from index `i` on.
pub open spec fn lex_from(cs: Seq<char>, i: int) -> (Seq<(TokenKind, int, int)>, Seq<int>)
    decreases cs.len() - i,
{
    if i < 0 || i >= cs.len() {
        (Seq::empty(), Seq::empty())
    } else {
        let (lx, n0) = scan(cs, i);
        let n = if n0 < 1 {
            1
        } else if n0 > cs.len() - i {
            cs.len() - i
        } else {
            n0
        };
        let rest = lex_from(cs, i + n);
        match lx {
            Lexeme::Blank => rest,
            Lexeme::Emit(k) => (seq![(k, i, i + n)] + rest.0, rest.1),
            Lexeme::Invalid => (rest.0, seq![i] + rest.1),
        }
    }
}

/// The tokens of `cs`, as kinds and character ranges.
pub open spec fn lex_tokens(cs: Seq<char>) -> Seq<(TokenKind, int, int)> {
    lex_from(cs, 0).0
}

/// The positions in `cs` where no token can start.
pub open spec fn lex_errors(cs: Seq<char>) -> Seq<int> {
    lex_from(cs, 0).1
}

/// The token `t` carries what source `cs` holds in `start..end`.
pub open spec fn payload_ok(t: Token, cs: Seq<char>, start: int, end: int) -> bool {
    match t {
        Token::PascalIdent(s) => s@ == cs.subrange(start, end),
        Token::CamelIdent(s) => s@ == cs.subrange(start, end),
        Token::Float(s) => s@ == cs.subrange(start, end),
        Token::StringLit(s) => s@ == cs.subrange(start + 1, end - 1),
        Token::Integer(v) => v as int == decimal_value(cs.subrange(start, end)),
        _ => true,
    }
}

/// `toks` are the tokens described by `spec`, read from `cs`.
pub open spec fn tokens_match(toks: Seq<Spanned>, spec: Seq<(TokenKind, int, int)>, cs: Seq<char>) -> bool {
    &&& toks.len() == spec.len()
    &&& forall|k: int|
        0 <= k < toks.len() ==> {
            let t = #[trigger] toks[k];
            let (kind, a, b) = spec[k];
            &&& t.token.spec_kind() == kind
            &&& t.span.start == a
            &&& t.span.end == b
            &&& payload_ok(t.token, cs, a, b)
        }
}

/// The description of a lexing error at character `start`.
pub open spec fn lex_message(start: int) -> Seq<char> {
    "invalid token at character "@ + decimal_digits(start as nat)
}

/// The descriptions of lexing errors at the characters `starts`, joined by ", ".
pub open spec fn lex_messages(starts: Seq<int>) -> Seq<char>
    decreases starts.len(),
{
    if starts.len() == 0 {
        Seq::empty()
    } else if starts.len() == 1 {
        lex_message(starts[0])
    } else {
        lex_messages(starts.drop_last()) + ", "@ + lex_message(starts.last())
    }
}

/// A place in the source where no token can start.
#[derive(Debug, Clone, Copy, PartialEq, Eq, Structural)]
pub struct LexError {
    pub span: TokenSpan,
}

impl LexError {
    /// A description of this error: where it is, in characters from the start.
    pub fn message(&self) -> (r: String)
        ensures
            r@ == lex_message(self.span.start as int),
    {
        let mut m = String::from_str("invalid token at character ");
        let d = crate::text::decimal(self.span.start as u64);
        m.append(d.as_str());
        m
    }
}

proof fn lemma_ident_end(cs: Seq<char>, j: int)
    requires
        0 <= j <= cs.len(),
    ensures
        j <= ident_end(cs, j) <= cs.len(),
        forall|m: int| j <= m < ident_end(cs, j) ==> is_ident_char(#[trigger] cs[m]),
    decreases cs.len() - j,
{
    if j < cs.len() && is_ident_char(cs[j]) {
        lemma_ident_end(cs, j + 1);
    }
}

proof fn lemma_digits_end(cs: Seq<char>, j: int)
    requires
        0 <= j <= cs.len(),
    ensures
        j <= digits_end(cs, j) <= cs.len(),
        forall|m: int| j <= m < digits_end(cs, j) ==> is_digit(#[trigger] cs[m]),
    decreases cs.len() - j,
{
    if j < cs.len() && is_digit(cs[j]) {
        lemma_digits_end(cs, j + 1);
    }
}

proof fn lemma_quote_from(cs: Seq<char>, j: int)
    requires
        0 <= j <= cs.len(),
    ensures
        j <= quote_from(cs, j) <= cs.len(),
        quote_from(cs, j) < cs.len() ==> cs[quote_from(cs, j)] == '"',
    decreases cs.len() - j,
{
    if j < cs.len() && cs[j] != '"' {
        lemma_quote_from(cs, j + 1);
    }
}

proof fn lemma_decimal_monotone(ds: Seq<char>, k: int)
    requires
        0 <= k <= ds.len(),
        forall|m: int| 0 <= m < ds.len() ==> is_digit(#[trigger] ds[m]),
    ensures
        decimal_value(ds.take(k)) <= decimal_value(ds),
        0 <= decimal_value(ds.take(k)),
    decreases ds.len() - k,
{
    if k < ds.len() {
        lemma_decimal_monotone(ds, k + 1);
        assert(ds.take(k + 1).drop_last() =~= ds.take(k));
        assert(decimal_value(ds.take(k)) <= decimal_value(ds.take(k)) * 10);
    } else {
        assert(ds.take(k) =~= ds);
        lemma_decimal_nonneg(ds);
    }
}

proof fn lemma_decimal_nonneg(ds: Seq<char>)
    requires
        forall|m: int| 0 <= m < ds.len() ==> is_digit(#[trigger] ds[m]),
    ensures
        0 <= decimal_value(ds),
    decreases ds.len(),
{
    if ds.len() > 0 {
        lemma_decimal_nonneg(ds.drop_last());
    }
}

/// Whether `c` continues an identifier.
fn ident_char(c: char) -> (r: bool)
    ensures
        r == is_ident_char(c),
{
    ('A' <= c && c <= 'Z') || ('a' <= c && c <= 'z') || ('0' <= c && c <= '9') || c == '_'
}

/// Whether `c` is an ASCII digit.
fn digit(c: char) -> (r: bool)
    ensures
        r == is_digit(c),
{
    '0' <= c && c <= '9'
}

fn skip_ident(cs: &Vec<char>, j: usize) -> (r: usize)
    requires
        j <= cs@.len(),
    ensures
        r == ident_end(cs@, j as int),
{
    let mut k = j;
    while k < cs.len() && ident_char(cs[k])
        invariant
            j <= k <= cs@.len(),
            ident_end(cs@, j as int) == ident_end(cs@, k as int),
        decreases cs@.len() - k,
    {
        k = k + 1;
    }
    k
}

fn skip_digits(cs: &Vec<char>, j: usize) -> (r: usize)
    requires
        j <= cs@.len(),
    ensures
        r == digits_end(cs@, j as int),
{
    let mut k = j;
    while k < cs.len() && digit(cs[k])
        invariant
            j <= k <= cs@.len(),
            digits_end(cs@, j as int) == digits_end(cs@, k as int),
        decreases cs@.len() - k,
    {
        k = k + 1;
    }
    k
}

fn find_quote(cs: &Vec<char>, j: usize) -> (r: usize)
    requires
        j <= cs@.len(),
    ensures
        r == quote_from(cs@, j as int),
{
    let mut k = j;
    while k < cs.len() && cs[k] != '"'
        invariant
            j <= k <= cs@.len(),
            quote_from(cs@, j as int) == quote_from(cs@, k as int),
        decreases cs@.len() - k,
    {
        k = k + 1;
    }
    k
}

/// The value of the digits `cs[a..b]`, or `None` past `i64::MAX`.
fn digits_value(cs: &Vec<char>, a: usize, b: usize) -> (r: Option<i64>)
    requires
        a <= b <= cs@.len(),
        forall|m: int| a <= m < b ==> is_digit(#[trigger] cs@[m]),
    ensures
        r matches Some(v) ==> v as int == decimal_value(cs@.subrange(a as int, b as int)),
        r is None ==> decimal_value(cs@.subrange(a as int, b as int)) > i64::MAX,
{
    let ghost ds = cs@.subrange(a as int, b as int);
    let mut v: i64 = 0;
    let mut k = a;
    assert(ds.take(0) =~= Seq::<char>::empty());
    while k < b
        invariant
            a <= k <= b <= cs@.len(),
            ds == cs@.subrange(a as int, b as int),
            forall|m: int| a <= m < b ==> is_digit(#[trigger] cs@[m]),
            v as int == decimal_value(ds.take(k - a)),
            0 <= v,
        decreases b - k,
    {
        let d = (cs[k] as u32 - '0' as u32) as i64;
        assert(ds.take(k + 1 - a).drop_last() =~= ds.take(k - a));
        assert(ds.take(k + 1 - a).last() == cs@[k as int]);
        if v > (i64::MAX - d) / 10 {
            assert(decimal_value(ds.take(k + 1 - a)) > i64::MAX) by (nonlinear_arith)
                requires
                    decimal_value(ds.take(k + 1 - a)) == v * 10 + d,
                    v > (i64::MAX - d) / 10,
                    0 <= d <= 9,
            ;
            proof {
                assert forall|m: int| 0 <= m < ds.len() implies is_digit(#[trigger] ds[m]) by {
                    assert(ds[m] == cs@[a + m]);
                }
                lemma_decimal_monotone(ds, k + 1 - a);
            }
            return None;
        }
        assert(v * 10 + d <= i64::MAX) by (nonlinear_arith)
            requires
                v <= (i64::MAX - d) / 10,
                0 <= d <= 9,
                0 <= v,
        ;
        v = v * 10 + d;
        k = k + 1;
    }
    assert(ds.take(b - a) =~= ds);
    Some(v)
}

/// What `cs` holds at index `i`, and how many characters it spans.
fn scan_at(cs: &Vec<char>, i: usize) -> (r: (Lexeme, usize))
    requires
        i < cs@.len(),
    ensures
        (r.0, r.1 as int) == scan(cs@, i as int),
        1 <= r.1,
        i + r.1 <= cs@.len(),
{
    let len = cs.len();
    let c = cs[i];
    let next: Option<char> = if i < len - 1 {
        Some(cs[i + 1])
    } else {
        None
    };
    if c == ' ' || c == '\t' || c == '\r' {
        (Lexeme::Blank, 1)
    } else if c == '\n' {
        (Lexeme::Emit(TokenKind::Newline), 1)
    } else if 'A' <= c && c <= 'Z' {
        proof {
            lemma_ident_end(cs@, i + 1);
        }
        (Lexeme::Emit(TokenKind::PascalIdent), skip_ident(cs, i + 1) - i)
    } else if ('a' <= c && c <= 'z') || c == '_' {
        proof {
            lemma_ident_end(cs@, i + 1);
        }
        (Lexeme::Emit(TokenKind::CamelIdent), skip_ident(cs, i + 1) - i)
    } else if '0' <= c && c <= '9' {
        proof {
            lemma_digits_end(cs@, i + 1);
        }
        let d = skip_digits(cs, i + 1);
        if d < len - 1 && cs[d] == '.' && digit(cs[d + 1]) {
            proof {
                lemma_digits_end(cs@, d + 2);
            }
            let e = skip_digits(cs, d + 2);
            (Lexeme::Emit(TokenKind::Float), e - i)
        } else {
            match digits_value(cs, i, d) {
                Some(_) => (Lexeme::Emit(TokenKind::Integer), d - i),
                None => (Lexeme::Invalid, d - i),
            }
        }
    } else if c == '"' {
        proof {
            lemma_quote_from(cs@, i + 1);
        }
        let q = find_quote(cs, i + 1);
        if q < cs.len() {
            (Lexeme::Emit(TokenKind::StringLit), q + 1 - i)
        } else {
            (Lexeme::Invalid, 1)
        }
    } else {
        match punct_at(c, next) {
            Some(p) => p,
            None => (Lexeme::Invalid, 1),
        }
    }
}

fn punct_at(c: char, next: Option<char>) -> (r: Option<(Lexeme, usize)>)
    ensures
        r matches Some(p) ==> punct(c, next) == Some((p.0, p.1 as int)) && (p.1 == 1 || (p.1
            == 2 && next is Some)),
        r is None ==> punct(c, next) is None,
{
    let follows = |x: char| -> (b: bool)
        ensures
            b == (next == Some(x)),
        {
            match next {
                Some(n) => n == x,
                None => false,
            }
        };
    if c == '(' {
        if follows('|') {
            Some((Lexeme::Emit(TokenKind::LParenPipe), 2))
        } else {
            Some((Lexeme::Emit(TokenKind::LParen), 1))
        }
    } else if c == '[' {
        if follows('|') {
            Some((Lexeme::Emit(TokenKind::LBracketPipe), 2))
        } else {
            Some((Lexeme::Emit(TokenKind::LBracket), 1))
        }
    } else if c == '{' {
        if follows('|') {
            Some((Lexeme::Emit(TokenKind::LBracePipe), 2))
        } else {
            Some((Lexeme::Emit(TokenKind::LBrace), 1))
        }
    } else if c == '|' {
        if follows(')') {
            Some((Lexeme::Emit(TokenKind::RPipeParen), 2))
        } else if follows(']') {
            Some((Lexeme::Emit(TokenKind::RPipeBracket), 2))
        } else if follows('}') {
            Some((Lexeme::Emit(TokenKind::RPipeBrace), 2))
        } else if follows('|') {
            Some((Lexeme::Emit(TokenKind::LogicalOr), 2))
        } else {
            Some((Lexeme::Emit(TokenKind::Pipe), 1))
        }
    } else if c == '&' {
        if follows('&') {
            Some((Lexeme::Emit(TokenKind::LogicalAnd), 2))
        } else {
            Some((Lexeme::Emit(TokenKind::Ampersand), 1))
        }
    } else if c == '=' {
        if follows('=') {
            Some((Lexeme::Emit(TokenKind::DoubleEquals), 2))
        } else {
            Some((Lexeme::Invalid, 1))
        }
    } else if c == '!' {
        if follows('=') {
            Some((Lexeme::Emit(TokenKind::NotEqual), 2))
        } else {
            Some((Lexeme::Invalid, 1))
        }
    } else if c == '<' {
        if follows('=') {
            Some((Lexeme::Emit(TokenKind::LessThanOrEqual), 2))
        } else {
            Some((Lexeme::Emit(TokenKind::LessThan), 1))
        }
    } else if c == '>' {
        if follows('=') {
            Some((Lexeme::Emit(TokenKind::GreaterThanOrEqual), 2))
        } else {
            Some((Lexeme::Emit(TokenKind::GreaterThan), 1))
        }
    } else {
        match single_at(c) {
            Some(k) => Some((Lexeme::Emit(k), 1)),
            None => None,
        }
    }
}

fn single_at(c: char) -> (r: Option<TokenKind>)
    ensures
        r == single(c),
{
    if c == ')' {
        Some(TokenKind::RParen)
    } else if c == ']' {
        Some(TokenKind::RBracket)
    } else if c == '}' {
        Some(TokenKind::RBrace)
    } else if c == '@' {
        Some(TokenKind::At)
    } else if c == '~' {
        Some(TokenKind::Tilde)
    } else if c == ':' {
        Some(TokenKind::Colon)
    } else if c == '$' {
        Some(TokenKind::Dollar)
    } else if c == '*' {
        Some(TokenKind::Star)
    } else if c == '+' {
        Some(TokenKind::Plus)
    } else if c == '?' {
        Some(TokenKind::Question)
    } else if c == '^' {
        Some(TokenKind::Caret)
    } else if c == '.' {
        Some(TokenKind::Dot)
    } else if c == '/' {
        Some(TokenKind::Slash)
    } else if c == '-' {
        Some(TokenKind::Minus)
    } else if c == '%' {
        Some(TokenKind::Percent)
    } else {
        None
    }
}

/// Reads the tokens of `source`. On success the tokens are exactly `lex_tokens` of the
/// source's characters, each carrying its text; when some character can start no
/// token, the error positions are exactly `lex_errors`.
pub fn lex(source: &str) -> (r: Result<Vec<Spanned>, Vec<LexError>>)
    ensures
        match r {
            Ok(toks) => lex_errors(source@).len() == 0 && tokens_match(
                toks@,
                lex_tokens(source@),
                source@,
            ),
            Err(errs) => lex_errors(source@).len() > 0 && errs@.len() == lex_errors(
                source@,
            ).len() && forall|k: int|
                0 <= k < errs@.len() ==> (#[trigger] errs@[k]).span.start == lex_errors(
                    source@,
                )[k],
        },
{
    let cs = chars_of(source);
    let n = cs.len();
    let mut toks: Vec<Spanned> = Vec::new();
    let mut errs: Vec<LexError> = Vec::new();
    let ghost spec_toks: Seq<(TokenKind, int, int)> = Seq::empty();
    let mut i: usize = 0;
    while i < n
        invariant
            n == cs@.len(),
            cs@ == source@,
            i <= n,
            lex_from(cs@, 0).0 == spec_toks + lex_from(cs@, i as int).0,
            tokens_match(toks@, spec_toks, cs@),
            lex_from(cs@, 0).1.len() == errs@.len() + lex_from(cs@, i as int).1.len(),
            forall|k: int|
                0 <= k < errs@.len() ==> (#[trigger] errs@[k]).span.start == lex_from(
                    cs@,
                    0,
                ).1[k],
            lex_from(cs@, 0).1.subrange(errs@.len() as int, lex_from(cs@, 0).1.len() as int)
                == lex_from(cs@, i as int).1,
        decreases n - i,
    {
        let (lx, len) = scan_at(&cs, i);
        let j = i + len;
        let ghost rest = lex_from(cs@, j as int);
        let ghost old_errs = errs@;
        match lx {
            Lexeme::Blank => {},
            Lexeme::Emit(k) => {
                let token = make_token(source, &cs, k, i, j);
                let sp = Spanned { token, span: TokenSpan { start: i, end: j } };
                proof {
                    spec_toks = spec_toks.push((k, i as int, j as int));
                }
                toks.push(sp);
                assert(seq![(k, i as int, j as int)] + rest.0 =~= lex_from(cs@, i as int).0);
            },
            Lexeme::Invalid => {
                let e = LexError { span: TokenSpan { start: i, end: j } };
                errs.push(e);
                proof {
                    let all = lex_from(cs@, 0).1;
                    let m = old_errs.len() as int;
                    assert(all.subrange(m, all.len() as int)[0] == i);
                    assert(all.subrange(m + 1, all.len() as int) =~= all.subrange(
                        m,
                        all.len() as int,
                    ).drop_first());
                }
            },
        }
        i = j;
    }
    assert(spec_toks =~= lex_from(cs@, 0).0);
    if errs.len() > 0 {
        Err(errs)
    } else {
        Ok(toks)
    }
}

/// The token of kind `k` read from `cs[a..b]`.
fn make_token(source: &str, cs: &Vec<char>, k: TokenKind, a: usize, b: usize) -> (t: Token)
    requires
        cs@ == source@,
        a < b <= cs@.len(),
        scan(cs@, a as int) == (Lexeme::Emit(k), b - a),
    ensures
        t.spec_kind() == k,
        payload_ok(t, cs@, a as int, b as int),
{
    match k {
        TokenKind::PascalIdent => Token::PascalIdent(piece(source, a, b)),
        TokenKind::CamelIdent => Token::CamelIdent(piece(source, a, b)),
        TokenKind::Float => Token::Float(piece(source, a, b)),
        TokenKind::StringLit => {
            proof {
                lemma_quote_from(cs@, a + 1);
            }
            Token::StringLit(piece(source, a + 1, b - 1))
        },
        TokenKind::Integer => {
            proof {
                lemma_digits_end(cs@, a + 1);
            }
            match digits_value(cs, a, b) {
                Some(v) => Token::Integer(v),
                None => Token::Integer(0),
            }
        },
        _ => Token::of_kind(k),
    }
}

} // verus!
