use askic::domain::Span;
use askic::error::ParseError;
use askic::lexer::lex;
use askic::token::Token;
use askic::token_stream::TokenStream;

fn stream(src: &str) -> TokenStream {
    TokenStream::new(lex(src).unwrap())
}

#[test]
fn stream_peek_advance_and_end() {
    let mut ts = stream("(A)");
    assert_eq!(ts.peek_token(), Some(&Token::LParen));
    ts.advance();
    assert_eq!(ts.peek_token(), Some(&Token::PascalIdent("A".to_string())));
    ts.advance();
    ts.advance();
    assert!(ts.at_end());
    assert!(ts.peek().is_none());
    ts.advance();
    assert_eq!(ts.save(), 3);
}

#[test]
fn stream_save_and_restore() {
    let mut ts = stream("A B C");
    ts.advance();
    let mark = ts.save();
    ts.advance();
    ts.advance();
    ts.restore(mark);
    assert_eq!(ts.peek_token(), Some(&Token::PascalIdent("B".to_string())));
}

#[test]
fn stream_spans() {
    let mut ts = stream("Ab Cd");
    assert_eq!(ts.span_here(), Span { start: 0, end: 2 });
    assert_eq!(ts.prev_span(), Span { start: 0, end: 0 });
    ts.advance();
    assert_eq!(ts.prev_span(), Span { start: 0, end: 2 });
    ts.advance();
    assert_eq!(ts.span_here(), Span { start: 5, end: 5 });
}

#[test]
fn stream_adjacency() {
    let mut ts = stream("a.b c");
    assert!(!ts.is_adjacent());
    ts.advance();
    assert!(ts.is_adjacent());
    ts.advance();
    ts.advance();
    assert!(!ts.is_adjacent());
}

#[test]
fn stream_skip_newlines() {
    let mut ts = stream("\n\nX");
    ts.skip_newlines();
    assert_eq!(ts.save(), 2);
    ts.skip_newlines();
    assert_eq!(ts.save(), 2);
}

#[test]
fn stream_expect() {
    let mut ts = stream("( Name camel");
    assert_eq!(ts.expect(&Token::LParen).unwrap(), Span { start: 0, end: 1 });
    let err = ts.expect(&Token::RParen).unwrap_err();
    assert_eq!(err.span, Span { start: 2, end: 6 });
    assert_eq!(ts.save(), 1);
    assert!(ts.expect_camel().is_err());
    let (name, sp) = ts.expect_pascal().unwrap();
    assert_eq!(name, "Name");
    assert_eq!(sp, Span { start: 2, end: 6 });
    assert!(ts.expect_pascal().is_err());
    let (c, _) = ts.expect_camel().unwrap();
    assert_eq!(c, "camel");
    assert!(ts.expect(&Token::RParen).is_err());
}

#[test]
fn parse_error_render_with_context() {
    let e = ParseError::new("expected )".to_string(), Span { start: 3, end: 4 });
    assert!(e.context.is_empty());
    let e = e.with_context("enum".to_string()).with_context("module".to_string());
    assert_eq!(e.context.len(), 2);
    assert_eq!(e.message, "expected )");
    assert_eq!(e.render(), "error at 3..4: expected )\n  in module\n  in enum");
}

#[test]
fn stream_expect_messages_name_what_was_found() {
    let mut ts = stream("( Name");
    ts.advance();
    let err = ts.expect(&Token::RParen).unwrap_err();
    assert_eq!(err.message, "expected ), got Some(PascalIdent(\"Name\"))");
    let err = ts.expect_camel().unwrap_err();
    assert_eq!(err.message, "expected camelCase, got Some(PascalIdent(\"Name\"))");
    ts.advance();
    let err = ts.expect_pascal().unwrap_err();
    assert_eq!(err.message, "expected PascalCase, got None");
}

#[test]
fn token_descriptions_name_their_kind() {
    assert_eq!(Token::At.describe(), "@");
    assert_eq!(Token::Integer(5).describe(), "integer");
    assert_eq!(askic::token::kind_text(askic::token::TokenKind::LParenPipe), "(|");
}

#[test]
fn token_debug_text_matches_debug_formatting() {
    let samples = vec![
        Token::LParenPipe,
        Token::Newline,
        Token::PascalIdent("Foo".to_string()),
        Token::CamelIdent("bar".to_string()),
        Token::Integer(-42),
        Token::Integer(i64::MIN),
        Token::Float("3.14".to_string()),
        Token::StringLit("say \"hi\"\n\tback\\slash\r\0".to_string()),
    ];
    for t in samples {
        assert_eq!(t.debug_text(), format!("{:?}", t));
        assert_eq!(askic::token::option_debug_text(Some(&t)), format!("{:?}", Some(&t)));
    }
    assert_eq!(askic::token::option_debug_text(None), "None");
}

#[test]
fn restore_returns_the_stream_to_the_saved_reading() {
    let mut ts = stream("( Name\ncamel)");
    ts.advance();
    let mark = ts.save();
    let before = (ts.peek().cloned(), ts.at_end(), ts.is_adjacent(), ts.span_here());
    ts.advance();
    ts.skip_newlines();
    let _ = ts.expect_camel();
    let _ = ts.expect(&Token::RParen);
    ts.restore(mark);
    assert_eq!(ts.save(), mark);
    assert_eq!((ts.peek().cloned(), ts.at_end(), ts.is_adjacent(), ts.span_here()), before);
}
