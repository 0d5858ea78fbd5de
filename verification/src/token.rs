//! Tokens of aski source text.
use vstd::prelude::*;
use vstd::string::{StrSliceExecFns, StringExecFns};
use crate::std_string::piece;
use crate::text::{decimal, decimal_digits};

verus! {

/// A token of aski source.
#[derive(Debug, Clone, PartialEq, Eq)]
pub enum Token {
    PascalIdent(String),
    CamelIdent(String),
    Integer(i64),
    Float(String),
    StringLit(String),
    Newline,
    LParen,
    RParen,
    LBracket,
    RBracket,
    LBrace,
    RBrace,
    LParenPipe,
    RPipeParen,
    LBracketPipe,
    RPipeBracket,
    LBracePipe,
    RPipeBrace,
    At,
    Tilde,
    Colon,
    Dollar,
    Star,
    Plus,
    Question,
    Ampersand,
    Caret,
    Dot,
    Slash,
    LogicalOr,
    LogicalAnd,
    DoubleEquals,
    NotEqual,
    LessThan,
    GreaterThan,
    LessThanOrEqual,
    GreaterThanOrEqual,
    Minus,
    Percent,
    Pipe,
}

/// The kind of a token, without its payload.
#[derive(Debug, Clone, Copy, PartialEq, Eq, Structural)]
pub enum TokenKind {
    PascalIdent,
    CamelIdent,
    Integer,
    Float,
    StringLit,
    Newline,
    LParen,
    RParen,
    LBracket,
    RBracket,
    LBrace,
    RBrace,
    LParenPipe,
    RPipeParen,
    LBracketPipe,
    RPipeBracket,
    LBracePipe,
    RPipeBrace,
    At,
    Tilde,
    Colon,
    Dollar,
    Star,
    Plus,
    Question,
    Ampersand,
    Caret,
    Dot,
    Slash,
    LogicalOr,
    LogicalAnd,
    DoubleEquals,
    NotEqual,
    LessThan,
    GreaterThan,
    LessThanOrEqual,
    GreaterThanOrEqual,
    Minus,
    Percent,
    Pipe,
}

/// Character offsets `start..end` of a token in its source.
#[derive(Debug, Clone, Copy, PartialEq, Eq, Structural)]
pub struct TokenSpan {
    pub start: usize,
    pub end: usize,
}

/// A token with the place it was read from.
#[derive(Debug, Clone, PartialEq, Eq)]
pub struct Spanned {
    pub token: Token,
    pub span: TokenSpan,
}

impl Token {
    /// The kind of this token.
    pub open spec fn spec_kind(&self) -> TokenKind {
        match self {
            Token::PascalIdent(_) => TokenKind::PascalIdent,
            Token::CamelIdent(_) => TokenKind::CamelIdent,
            Token::Integer(_) => TokenKind::Integer,
            Token::Float(_) => TokenKind::Float,
            Token::StringLit(_) => TokenKind::StringLit,
            Token::Newline => TokenKind::Newline,
            Token::LParen => TokenKind::LParen,
            Token::RParen => TokenKind::RParen,
            Token::LBracket => TokenKind::LBracket,
            Token::RBracket => TokenKind::RBracket,
            Token::LBrace => TokenKind::LBrace,
            Token::RBrace => TokenKind::RBrace,
            Token::LParenPipe => TokenKind::LParenPipe,
            Token::RPipeParen => TokenKind::RPipeParen,
            Token::LBracketPipe => TokenKind::LBracketPipe,
            Token::RPipeBracket => TokenKind::RPipeBracket,
            Token::LBracePipe => TokenKind::LBracePipe,
            Token::RPipeBrace => TokenKind::RPipeBrace,
            Token::At => TokenKind::At,
            Token::Tilde => TokenKind::Tilde,
            Token::Colon => TokenKind::Colon,
            Token::Dollar => TokenKind::Dollar,
            Token::Star => TokenKind::Star,
            Token::Plus => TokenKind::Plus,
            Token::Question => TokenKind::Question,
            Token::Ampersand => TokenKind::Ampersand,
            Token::Caret => TokenKind::Caret,
            Token::Dot => TokenKind::Dot,
            Token::Slash => TokenKind::Slash,
            Token::LogicalOr => TokenKind::LogicalOr,
            Token::LogicalAnd => TokenKind::LogicalAnd,
            Token::DoubleEquals => TokenKind::DoubleEquals,
            Token::NotEqual => TokenKind::NotEqual,
            Token::LessThan => TokenKind::LessThan,
            Token::GreaterThan => TokenKind::GreaterThan,
            Token::LessThanOrEqual => TokenKind::LessThanOrEqual,
            Token::GreaterThanOrEqual => TokenKind::GreaterThanOrEqual,
            Token::Minus => TokenKind::Minus,
            Token::Percent => TokenKind::Percent,
            Token::Pipe => TokenKind::Pipe,
        }
    }

    /// The kind of this token.
    #[verifier::when_used_as_spec(spec_kind)]
    pub fn kind(&self) -> (k: TokenKind)
        ensures
            k == self.spec_kind(),
    {
        match self {
            Token::PascalIdent(_) => TokenKind::PascalIdent,
            Token::CamelIdent(_) => TokenKind::CamelIdent,
            Token::Integer(_) => TokenKind::Integer,
            Token::Float(_) => TokenKind::Float,
            Token::StringLit(_) => TokenKind::StringLit,
            Token::Newline => TokenKind::Newline,
            Token::LParen => TokenKind::LParen,
            Token::RParen => TokenKind::RParen,
            Token::LBracket => TokenKind::LBracket,
            Token::RBracket => TokenKind::RBracket,
            Token::LBrace => TokenKind::LBrace,
            Token::RBrace => TokenKind::RBrace,
            Token::LParenPipe => TokenKind::LParenPipe,
            Token::RPipeParen => TokenKind::RPipeParen,
            Token::LBracketPipe => TokenKind::LBracketPipe,
            Token::RPipeBracket => TokenKind::RPipeBracket,
            Token::LBracePipe => TokenKind::LBracePipe,
            Token::RPipeBrace => TokenKind::RPipeBrace,
            Token::At => TokenKind::At,
            Token::Tilde => TokenKind::Tilde,
            Token::Colon => TokenKind::Colon,
            Token::Dollar => TokenKind::Dollar,
            Token::Star => TokenKind::Star,
            Token::Plus => TokenKind::Plus,
            Token::Question => TokenKind::Question,
            Token::Ampersand => TokenKind::Ampersand,
            Token::Caret => TokenKind::Caret,
            Token::Dot => TokenKind::Dot,
            Token::Slash => TokenKind::Slash,
            Token::LogicalOr => TokenKind::LogicalOr,
            Token::LogicalAnd => TokenKind::LogicalAnd,
            Token::DoubleEquals => TokenKind::DoubleEquals,
            Token::NotEqual => TokenKind::NotEqual,
            Token::LessThan => TokenKind::LessThan,
            Token::GreaterThan => TokenKind::GreaterThan,
            Token::LessThanOrEqual => TokenKind::LessThanOrEqual,
            Token::GreaterThanOrEqual => TokenKind::GreaterThanOrEqual,
            Token::Minus => TokenKind::Minus,
            Token::Percent => TokenKind::Percent,
            Token::Pipe => TokenKind::Pipe,
        }
    }

    /// The token of a payload-free kind.
    pub open spec fn spec_of_kind(k: TokenKind) -> Token {
        match k {
            TokenKind::Newline => Token::Newline,
            TokenKind::LParen => Token::LParen,
            TokenKind::RParen => Token::RParen,
            TokenKind::LBracket => Token::LBracket,
            TokenKind::RBracket => Token::RBracket,
            TokenKind::LBrace => Token::LBrace,
            TokenKind::RBrace => Token::RBrace,
            TokenKind::LParenPipe => Token::LParenPipe,
            TokenKind::RPipeParen => Token::RPipeParen,
            TokenKind::LBracketPipe => Token::LBracketPipe,
            TokenKind::RPipeBracket => Token::RPipeBracket,
            TokenKind::LBracePipe => Token::LBracePipe,
            TokenKind::RPipeBrace => Token::RPipeBrace,
            TokenKind::At => Token::At,
            TokenKind::Tilde => Token::Tilde,
            TokenKind::Colon => Token::Colon,
            TokenKind::Dollar => Token::Dollar,
            TokenKind::Star => Token::Star,
            TokenKind::Plus => Token::Plus,
            TokenKind::Question => Token::Question,
            TokenKind::Ampersand => Token::Ampersand,
            TokenKind::Caret => Token::Caret,
            TokenKind::Dot => Token::Dot,
            TokenKind::Slash => Token::Slash,
            TokenKind::LogicalOr => Token::LogicalOr,
            TokenKind::LogicalAnd => Token::LogicalAnd,
            TokenKind::DoubleEquals => Token::DoubleEquals,
            TokenKind::NotEqual => Token::NotEqual,
            TokenKind::LessThan => Token::LessThan,
            TokenKind::GreaterThan => Token::GreaterThan,
            TokenKind::LessThanOrEqual => Token::LessThanOrEqual,
            TokenKind::GreaterThanOrEqual => Token::GreaterThanOrEqual,
            TokenKind::Minus => Token::Minus,
            TokenKind::Percent => Token::Percent,
            _ => Token::Pipe,
        }
    }

    /// The token of a payload-free kind; `Pipe` for kinds that carry a payload.
    #[verifier::when_used_as_spec(spec_of_kind)]
    pub fn of_kind(k: TokenKind) -> (t: Token)
        ensures
            t == Token::spec_of_kind(k),
    {
        match k {
            TokenKind::Newline => Token::Newline,
            TokenKind::LParen => Token::LParen,
            TokenKind::RParen => Token::RParen,
            TokenKind::LBracket => Token::LBracket,
            TokenKind::RBracket => Token::RBracket,
            TokenKind::LBrace => Token::LBrace,
            TokenKind::RBrace => Token::RBrace,
            TokenKind::LParenPipe => Token::LParenPipe,
            TokenKind::RPipeParen => Token::RPipeParen,
            TokenKind::LBracketPipe => Token::LBracketPipe,
            TokenKind::RPipeBracket => Token::RPipeBracket,
            TokenKind::LBracePipe => Token::LBracePipe,
            TokenKind::RPipeBrace => Token::RPipeBrace,
            TokenKind::At => Token::At,
            TokenKind::Tilde => Token::Tilde,
            TokenKind::Colon => Token::Colon,
            TokenKind::Dollar => Token::Dollar,
            TokenKind::Star => Token::Star,
            TokenKind::Plus => Token::Plus,
            TokenKind::Question => Token::Question,
            TokenKind::Ampersand => Token::Ampersand,
            TokenKind::Caret => Token::Caret,
            TokenKind::Dot => Token::Dot,
            TokenKind::Slash => Token::Slash,
            TokenKind::LogicalOr => Token::LogicalOr,
            TokenKind::LogicalAnd => Token::LogicalAnd,
            TokenKind::DoubleEquals => Token::DoubleEquals,
            TokenKind::NotEqual => Token::NotEqual,
            TokenKind::LessThan => Token::LessThan,
            TokenKind::GreaterThan => Token::GreaterThan,
            TokenKind::LessThanOrEqual => Token::LessThanOrEqual,
            TokenKind::GreaterThanOrEqual => Token::GreaterThanOrEqual,
            TokenKind::Minus => Token::Minus,
            TokenKind::Percent => Token::Percent,
            _ => Token::Pipe,
        }
    }

    /// The identifier text of a name token.
    pub open spec fn spec_ident(&self) -> Seq<char> {
        match self {
            Token::PascalIdent(s) => s@,
            Token::CamelIdent(s) => s@,
            _ => Seq::<char>::empty(),
        }
    }

    /// The text a token carries: an identifier's name, a float's digits or a string
    /// literal's contents; empty for the other tokens.
    pub open spec fn spec_text(&self) -> Seq<char> {
        match self {
            Token::PascalIdent(s) => s@,
            Token::CamelIdent(s) => s@,
            Token::Float(s) => s@,
            Token::StringLit(s) => s@,
            _ => Seq::<char>::empty(),
        }
    }

    /// Whether this is the identifier `Self`.
    pub open spec fn spec_is_self(&self) -> bool {
        &&& self.spec_kind() == TokenKind::PascalIdent
        &&& self.spec_ident() == seq!['S', 'e', 'l', 'f']
    }

    /// Whether this is the identifier `Self`.
    #[verifier::when_used_as_spec(spec_is_self)]
    pub fn is_self(&self) -> (r: bool)
        ensures
            r == self.spec_is_self(),
    {
        match self {
            Token::PascalIdent(s) => {
                let cs = crate::std_string::chars_of(s.as_str());
                let r = cs.len() == 4 && cs[0] == 'S' && cs[1] == 'e' && cs[2] == 'l' && cs[3]
                    == 'f';
                proof {
                    if r {
                        assert(cs@ =~= seq!['S', 'e', 'l', 'f']);
                    }
                }
                r
            },
            _ => false,
        }
    }

    /// A short description of this token for diagnostics: the name of its kind.
    pub fn describe(&self) -> (r: &'static str)
        ensures
            r@ == kind_name(self.spec_kind()),
    {
        match self {
            Token::PascalIdent(_) => "PascalCase identifier",
            Token::CamelIdent(_) => "camelCase identifier",
            Token::Integer(_) => "integer",
            Token::Float(_) => "float",
            Token::StringLit(_) => "string literal",
            Token::Newline => "newline",
            _ => kind_text(self.kind()),
        }
    }
}

impl Token {
    /// The two tokens are of one kind and carry the same payload.
    pub open spec fn spec_same(&self, other: &Token) -> bool {
        match (self, other) {
            (Token::PascalIdent(a), Token::PascalIdent(b)) => a@ == b@,
            (Token::CamelIdent(a), Token::CamelIdent(b)) => a@ == b@,
            (Token::Integer(a), Token::Integer(b)) => a == b,
            (Token::Float(a), Token::Float(b)) => a@ == b@,
            (Token::StringLit(a), Token::StringLit(b)) => a@ == b@,
            _ => self.spec_kind() == other.spec_kind(),
        }
    }

    /// The two tokens are of one kind and carry the same payload.
    #[verifier::when_used_as_spec(spec_same)]
    pub fn same(&self, other: &Token) -> (r: bool)
        ensures
            r == self.spec_same(other),
    {
        match (self, other) {
            (Token::PascalIdent(a), Token::PascalIdent(b)) => *a == *b,
            (Token::CamelIdent(a), Token::CamelIdent(b)) => *a == *b,
            (Token::Integer(a), Token::Integer(b)) => *a == *b,
            (Token::Float(a), Token::Float(b)) => *a == *b,
            (Token::StringLit(a), Token::StringLit(b)) => *a == *b,
            _ => self.kind() == other.kind(),
        }
    }
}

/// The integer a token carries; 0 for the other tokens.
pub open spec fn int_payload(t: Token) -> i64 {
    match t {
        Token::Integer(v) => v,
        _ => 0,
    }
}

/// Two tokens are the same exactly when they are of one kind and carry the same text and
/// the same integer: a name matches only the same name, a literal only the same literal.
pub proof fn law_same_means_same_payload(a: Token, b: Token)
    ensures
        a.spec_same(&b) <==> (a.spec_kind() == b.spec_kind() && a.spec_text() == b.spec_text()
            && int_payload(a) == int_payload(b)),
        a.spec_same(&a),
        a.spec_same(&b) == b.spec_same(&a),
{
}

/// The first index at or after `p` whose token is not a newline; past the last token,
/// `p` itself.
pub open spec fn next_sig(toks: Seq<Spanned>, p: int) -> int
    decreases toks.len() - p,
{
    if 0 <= p < toks.len() && toks[p].token.spec_kind() == TokenKind::Newline {
        next_sig(toks, p + 1)
    } else {
        p
    }
}

/// `next_sig` skips newlines only: it lies between `p` and the end, every token it
/// passes is a newline, and the token it stops at is not.
pub proof fn lemma_next_sig(toks: Seq<Spanned>, p: int)
    requires
        0 <= p <= toks.len(),
    ensures
        p <= next_sig(toks, p) <= toks.len(),
        forall|m: int|
            p <= m < next_sig(toks, p) ==> (#[trigger] toks[m]).token.spec_kind()
                == TokenKind::Newline,
        next_sig(toks, p) < toks.len() ==> toks[next_sig(toks, p)].token.spec_kind()
            != TokenKind::Newline,
    decreases toks.len() - p,
{
    if p < toks.len() && toks[p].token.spec_kind() == TokenKind::Newline {
        lemma_next_sig(toks, p + 1);
    }
}

/// The source text of a payload-free token kind, or the name of a kind that carries
/// one.
pub open spec fn kind_name(k: TokenKind) -> Seq<char> {
    match k {
        TokenKind::PascalIdent => "PascalCase identifier"@,
        TokenKind::CamelIdent => "camelCase identifier"@,
        TokenKind::Integer => "integer"@,
        TokenKind::Float => "float"@,
        TokenKind::StringLit => "string literal"@,
        TokenKind::Newline => "newline"@,
        TokenKind::LParen => "("@,
        TokenKind::RParen => ")"@,
        TokenKind::LBracket => "["@,
        TokenKind::RBracket => "]"@,
        TokenKind::LBrace => "{"@,
        TokenKind::RBrace => "}"@,
        TokenKind::LParenPipe => "(|"@,
        TokenKind::RPipeParen => "|)"@,
        TokenKind::LBracketPipe => "[|"@,
        TokenKind::RPipeBracket => "|]"@,
        TokenKind::LBracePipe => "{|"@,
        TokenKind::RPipeBrace => "|}"@,
        TokenKind::At => "@"@,
        TokenKind::Tilde => "~"@,
        TokenKind::Colon => ":"@,
        TokenKind::Dollar => "$"@,
        TokenKind::Star => "*"@,
        TokenKind::Plus => "+"@,
        TokenKind::Question => "?"@,
        TokenKind::Ampersand => "&"@,
        TokenKind::Caret => "^"@,
        TokenKind::Dot => "."@,
        TokenKind::Slash => "/"@,
        TokenKind::LogicalOr => "||"@,
        TokenKind::LogicalAnd => "&&"@,
        TokenKind::DoubleEquals => "=="@,
        TokenKind::NotEqual => "!="@,
        TokenKind::LessThan => "<"@,
        TokenKind::GreaterThan => ">"@,
        TokenKind::LessThanOrEqual => "<="@,
        TokenKind::GreaterThanOrEqual => ">="@,
        TokenKind::Minus => "-"@,
        TokenKind::Percent => "%"@,
        TokenKind::Pipe => "|"@,
    }
}

/// The source text of a payload-free token kind.
pub fn kind_text(k: TokenKind) -> (r: &'static str)
    ensures
        r@ == kind_name(k),
{
    match k {
        TokenKind::PascalIdent => "PascalCase identifier",
        TokenKind::CamelIdent => "camelCase identifier",
        TokenKind::Integer => "integer",
        TokenKind::Float => "float",
        TokenKind::StringLit => "string literal",
        TokenKind::Newline => "newline",
        TokenKind::LParen => "(",
        TokenKind::RParen => ")",
        TokenKind::LBracket => "[",
        TokenKind::RBracket => "]",
        TokenKind::LBrace => "{",
        TokenKind::RBrace => "}",
        TokenKind::LParenPipe => "(|",
        TokenKind::RPipeParen => "|)",
        TokenKind::LBracketPipe => "[|",
        TokenKind::RPipeBracket => "|]",
        TokenKind::LBracePipe => "{|",
        TokenKind::RPipeBrace => "|}",
        TokenKind::At => "@",
        TokenKind::Tilde => "~",
        TokenKind::Colon => ":",
        TokenKind::Dollar => "$",
        TokenKind::Star => "*",
        TokenKind::Plus => "+",
        TokenKind::Question => "?",
        TokenKind::Ampersand => "&",
        TokenKind::Caret => "^",
        TokenKind::Dot => ".",
        TokenKind::Slash => "/",
        TokenKind::LogicalOr => "||",
        TokenKind::LogicalAnd => "&&",
        TokenKind::DoubleEquals => "==",
        TokenKind::NotEqual => "!=",
        TokenKind::LessThan => "<",
        TokenKind::GreaterThan => ">",
        TokenKind::LessThanOrEqual => "<=",
        TokenKind::GreaterThanOrEqual => ">=",
        TokenKind::Minus => "-",
        TokenKind::Percent => "%",
        TokenKind::Pipe => "|",
    }
}


/// The name of a token kind, as the variant is written.
pub open spec fn variant_name(k: TokenKind) -> Seq<char> {
    match k {
        TokenKind::PascalIdent => "PascalIdent"@,
        TokenKind::CamelIdent => "CamelIdent"@,
        TokenKind::Integer => "Integer"@,
        TokenKind::Float => "Float"@,
        TokenKind::StringLit => "StringLit"@,
        TokenKind::Newline => "Newline"@,
        TokenKind::LParen => "LParen"@,
        TokenKind::RParen => "RParen"@,
        TokenKind::LBracket => "LBracket"@,
        TokenKind::RBracket => "RBracket"@,
        TokenKind::LBrace => "LBrace"@,
        TokenKind::RBrace => "RBrace"@,
        TokenKind::LParenPipe => "LParenPipe"@,
        TokenKind::RPipeParen => "RPipeParen"@,
        TokenKind::LBracketPipe => "LBracketPipe"@,
        TokenKind::RPipeBracket => "RPipeBracket"@,
        TokenKind::LBracePipe => "LBracePipe"@,
        TokenKind::RPipeBrace => "RPipeBrace"@,
        TokenKind::At => "At"@,
        TokenKind::Tilde => "Tilde"@,
        TokenKind::Colon => "Colon"@,
        TokenKind::Dollar => "Dollar"@,
        TokenKind::Star => "Star"@,
        TokenKind::Plus => "Plus"@,
        TokenKind::Question => "Question"@,
        TokenKind::Ampersand => "Ampersand"@,
        TokenKind::Caret => "Caret"@,
        TokenKind::Dot => "Dot"@,
        TokenKind::Slash => "Slash"@,
        TokenKind::LogicalOr => "LogicalOr"@,
        TokenKind::LogicalAnd => "LogicalAnd"@,
        TokenKind::DoubleEquals => "DoubleEquals"@,
        TokenKind::NotEqual => "NotEqual"@,
        TokenKind::LessThan => "LessThan"@,
        TokenKind::GreaterThan => "GreaterThan"@,
        TokenKind::LessThanOrEqual => "LessThanOrEqual"@,
        TokenKind::GreaterThanOrEqual => "GreaterThanOrEqual"@,
        TokenKind::Minus => "Minus"@,
        TokenKind::Percent => "Percent"@,
        TokenKind::Pipe => "Pipe"@,
    }
}

/// The name of a token kind, as the variant is written.
pub fn variant_text(k: TokenKind) -> (r: &'static str)
    ensures
        r@ == variant_name(k),
{
    match k {
        TokenKind::PascalIdent => "PascalIdent",
        TokenKind::CamelIdent => "CamelIdent",
        TokenKind::Integer => "Integer",
        TokenKind::Float => "Float",
        TokenKind::StringLit => "StringLit",
        TokenKind::Newline => "Newline",
        TokenKind::LParen => "LParen",
        TokenKind::RParen => "RParen",
        TokenKind::LBracket => "LBracket",
        TokenKind::RBracket => "RBracket",
        TokenKind::LBrace => "LBrace",
        TokenKind::RBrace => "RBrace",
        TokenKind::LParenPipe => "LParenPipe",
        TokenKind::RPipeParen => "RPipeParen",
        TokenKind::LBracketPipe => "LBracketPipe",
        TokenKind::RPipeBracket => "RPipeBracket",
        TokenKind::LBracePipe => "LBracePipe",
        TokenKind::RPipeBrace => "RPipeBrace",
        TokenKind::At => "At",
        TokenKind::Tilde => "Tilde",
        TokenKind::Colon => "Colon",
        TokenKind::Dollar => "Dollar",
        TokenKind::Star => "Star",
        TokenKind::Plus => "Plus",
        TokenKind::Question => "Question",
        TokenKind::Ampersand => "Ampersand",
        TokenKind::Caret => "Caret",
        TokenKind::Dot => "Dot",
        TokenKind::Slash => "Slash",
        TokenKind::LogicalOr => "LogicalOr",
        TokenKind::LogicalAnd => "LogicalAnd",
        TokenKind::DoubleEquals => "DoubleEquals",
        TokenKind::NotEqual => "NotEqual",
        TokenKind::LessThan => "LessThan",
        TokenKind::GreaterThan => "GreaterThan",
        TokenKind::LessThanOrEqual => "LessThanOrEqual",
        TokenKind::GreaterThanOrEqual => "GreaterThanOrEqual",
        TokenKind::Minus => "Minus",
        TokenKind::Percent => "Percent",
        TokenKind::Pipe => "Pipe",
    }
}

/// A character as it stands inside a quoted string in debug output: a backslash
/// escape for the null character, tab, carriage return, line feed, backslash and
/// double quote, and the character itself otherwise.
pub open spec fn escape_char(c: char) -> Seq<char> {
    if c == '\0' {
        "\\0"@
    } else if c == '\t' {
        "\\t"@
    } else if c == '\r' {
        "\\r"@
    } else if c == '\n' {
        "\\n"@
    } else if c == '\\' {
        "\\\\"@
    } else if c == '"' {
        "\\\""@
    } else {
        seq![c]
    }
}

/// The characters of `s`, each as `escape_char` writes it.
pub open spec fn escaped(s: Seq<char>) -> Seq<char>
    decreases s.len(),
{
    if s.len() == 0 {
        Seq::empty()
    } else {
        escaped(s.drop_last()) + escape_char(s.last())
    }
}

/// `s` in double quotes, escaped.
pub open spec fn quoted(s: Seq<char>) -> Seq<char> {
    "\""@ + escaped(s) + "\""@
}

/// `v` in decimal, with a minus sign when it is negative.
pub open spec fn int_digits(v: int) -> Seq<char> {
    if v < 0 {
        "-"@ + decimal_digits((-v) as nat)
    } else {
        decimal_digits(v as nat)
    }
}

/// The debug rendering of a token: the variant's name, and a payload in parentheses
/// (text quoted and escaped, integers in decimal).
pub open spec fn token_debug(t: Token) -> Seq<char> {
    match t {
        Token::PascalIdent(s) => "PascalIdent"@ + "("@ + quoted(s@) + ")"@,
        Token::CamelIdent(s) => "CamelIdent"@ + "("@ + quoted(s@) + ")"@,
        Token::Integer(v) => "Integer"@ + "("@ + int_digits(v as int) + ")"@,
        Token::Float(s) => "Float"@ + "("@ + quoted(s@) + ")"@,
        Token::StringLit(s) => "StringLit"@ + "("@ + quoted(s@) + ")"@,
        _ => variant_name(t.spec_kind()),
    }
}

/// The debug rendering of a token that may be missing: `Some(..)` or `None`.
pub open spec fn option_debug(t: Option<Token>) -> Seq<char> {
    match t {
        Some(x) => "Some"@ + "("@ + token_debug(x) + ")"@,
        None => "None"@,
    }
}

/// `s`, each character as `escape_char` writes it.
fn escaped_text(s: &str) -> (r: String)
    ensures
        r@ == escaped(s@),
{
    let n = s.unicode_len();
    let mut out = String::new();
    let mut i: usize = 0;
    proof {
        assert(s@.take(0) =~= Seq::<char>::empty());
    }
    while i < n
        invariant
            i <= n,
            n == s@.len(),
            out@ == escaped(s@.take(i as int)),
        decreases n - i,
    {
        let c = s.get_char(i);
        if c == '\0' {
            out.append("\\0");
        } else if c == '\t' {
            out.append("\\t");
        } else if c == '\r' {
            out.append("\\r");
        } else if c == '\n' {
            out.append("\\n");
        } else if c == '\\' {
            out.append("\\\\");
        } else if c == '"' {
            out.append("\\\"");
        } else {
            let one = piece(s, i, i + 1);
            proof {
                assert(one@ =~= seq![c]);
            }
            out.append(one.as_str());
        }
        proof {
            assert(s@.take(i + 1).drop_last() =~= s@.take(i as int));
            assert(s@.take(i + 1).last() == c);
        }
        i += 1;
    }
    proof {
        assert(s@.take(n as int) =~= s@);
    }
    out
}

/// `s` in double quotes, escaped.
fn quoted_text(s: &str) -> (r: String)
    ensures
        r@ == quoted(s@),
{
    let mut m = String::from_str("\"");
    let e = escaped_text(s);
    m.append(e.as_str());
    m.append("\"");
    m
}

/// `v` in decimal, with a minus sign when it is negative.
fn int_text(v: i64) -> (r: String)
    ensures
        r@ == int_digits(v as int),
{
    if v < 0 {
        let mut m = String::from_str("-");
        let magnitude: u64 = (0i128 - v as i128) as u64;
        let d = decimal(magnitude);
        m.append(d.as_str());
        m
    } else {
        decimal(v as u64)
    }
}

/// `head(` + `payload` + `)`.
fn wrapped(head: &str, payload: &str) -> (r: String)
    ensures
        r@ == head@ + "("@ + payload@ + ")"@,
{
    let mut m = String::from_str(head);
    m.append("(");
    m.append(payload);
    m.append(")");
    m
}

impl Token {
    /// The debug rendering of this token, as `token_debug` gives it.
    pub fn debug_text(&self) -> (r: String)
        ensures
            r@ == token_debug(*self),
    {
        match self {
            Token::PascalIdent(s) => wrapped("PascalIdent", quoted_text(s.as_str()).as_str()),
            Token::CamelIdent(s) => wrapped("CamelIdent", quoted_text(s.as_str()).as_str()),
            Token::Integer(v) => wrapped("Integer", int_text(*v).as_str()),
            Token::Float(s) => wrapped("Float", quoted_text(s.as_str()).as_str()),
            Token::StringLit(s) => wrapped("StringLit", quoted_text(s.as_str()).as_str()),
            _ => String::from_str(variant_text(self.kind())),
        }
    }
}

/// The debug rendering of a token that may be missing.
pub fn option_debug_text(t: Option<&Token>) -> (r: String)
    ensures
        r@ == option_debug(match t {
            Some(x) => Some(*x),
            None => None,
        }),
{
    match t {
        Some(x) => wrapped("Some", x.debug_text().as_str()),
        None => String::from_str("None"),
    }
}

} // verus!
