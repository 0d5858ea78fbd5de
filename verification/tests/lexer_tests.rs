use askic::lexer::lex;
use askic::token::{Token, TokenKind};

#[test]
fn lex_module_header() {
    let toks = lex("(Test Element)").unwrap();
    assert_eq!(toks.len(), 4);
    assert_eq!(toks[0].token, Token::LParen);
    assert_eq!(toks[1].token, Token::PascalIdent("Test".to_string()));
    assert_eq!(toks[2].token, Token::PascalIdent("Element".to_string()));
    assert_eq!(toks[3].token, Token::RParen);
    assert_eq!((toks[1].span.start, toks[1].span.end), (1, 5));
}

#[test]
fn lex_literals() {
    let toks = lex("42 3.14 \"hi there\" camelName _x").unwrap();
    assert_eq!(toks[0].token, Token::Integer(42));
    assert_eq!(toks[1].token, Token::Float("3.14".to_string()));
    assert_eq!(toks[2].token, Token::StringLit("hi there".to_string()));
    assert_eq!(toks[3].token, Token::CamelIdent("camelName".to_string()));
    assert_eq!(toks[4].token, Token::CamelIdent("_x".to_string()));
}

#[test]
fn lex_delimiters_and_operators() {
    let toks = lex("(| |) [| |] {| |} || && == != <= >= < > | & ^ ~ @").unwrap();
    let kinds: Vec<TokenKind> = toks.iter().map(|t| t.token.kind()).collect();
    assert_eq!(
        kinds,
        vec![
            TokenKind::LParenPipe,
            TokenKind::RPipeParen,
            TokenKind::LBracketPipe,
            TokenKind::RPipeBracket,
            TokenKind::LBracePipe,
            TokenKind::RPipeBrace,
            TokenKind::LogicalOr,
            TokenKind::LogicalAnd,
            TokenKind::DoubleEquals,
            TokenKind::NotEqual,
            TokenKind::LessThanOrEqual,
            TokenKind::GreaterThanOrEqual,
            TokenKind::LessThan,
            TokenKind::GreaterThan,
            TokenKind::Pipe,
            TokenKind::Ampersand,
            TokenKind::Caret,
            TokenKind::Tilde,
            TokenKind::At,
        ]
    );
}

#[test]
fn lex_newlines_are_tokens() {
    let toks = lex("A\n\nB").unwrap();
    assert_eq!(toks.len(), 4);
    assert_eq!(toks[1].token, Token::Newline);
    assert_eq!(toks[2].token, Token::Newline);
}

#[test]
fn lex_spans_count_characters() {
    let toks = lex("\"é\" X").unwrap();
    assert_eq!((toks[1].span.start, toks[1].span.end), (4, 5));
}

#[test]
fn lex_reports_every_invalid_character() {
    let errs = lex("A # B ;").unwrap_err();
    assert_eq!(errs.len(), 2);
    assert_eq!(errs[0].span.start, 2);
    assert_eq!(errs[1].span.start, 6);
    assert_eq!(errs[0].message(), "invalid token at character 2");
}

#[test]
fn lex_rejects_unterminated_string() {
    assert!(lex("\"open").is_err());
}

#[test]
fn lex_rejects_integer_past_i64() {
    assert!(lex("9223372036854775807").is_ok());
    assert!(lex("9223372036854775808").is_err());
}

#[test]
fn token_same_compares_payloads() {
    assert!(Token::Integer(3).same(&Token::Integer(3)));
    assert!(!Token::Integer(3).same(&Token::Integer(4)));
    assert!(Token::PascalIdent("A".to_string()).same(&Token::PascalIdent("A".to_string())));
    assert!(!Token::PascalIdent("A".to_string()).same(&Token::CamelIdent("A".to_string())));
    assert!(Token::Dot.same(&Token::Dot));
    assert!(Token::PascalIdent("Self".to_string()).is_self());
    assert!(!Token::PascalIdent("Selfish".to_string()).is_self());
}
