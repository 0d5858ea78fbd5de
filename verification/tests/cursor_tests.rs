use askic::domain::Span;
use askic::engine::Cursor as EngineCursor;
use askic::lexer::lex;
use askic::machine::Cursor as MachineCursor;
use askic::token::Token;

fn pascal(s: &str) -> Token {
    Token::PascalIdent(s.to_string())
}

#[test]
fn engine_cursor_looks_past_newlines() {
    let toks = lex("A\n\n(B").unwrap();
    let mut c = EngineCursor::new(&toks);
    assert_eq!(c.peek().map(|s| s.token.clone()), Some(pascal("A")));
    assert!(c.is_adjacent());
    c.advance();
    assert_eq!(c.pos(), 1);
    assert_eq!(c.peek().map(|s| s.token.clone()), Some(Token::LParen));
    assert_eq!(c.span(), Span { start: 3, end: 4 });
    assert!(!c.is_adjacent());
    c.advance();
    assert_eq!(c.pos(), 4);
    assert!(c.is_adjacent());
    c.advance();
    assert!(c.at_end());
    assert!(c.peek().is_none());
    assert_eq!(c.span(), Span { start: 0, end: 0 });
    c.advance();
    assert_eq!(c.pos(), 5);
}

#[test]
fn engine_cursor_trailing_newlines_are_the_end() {
    let toks = lex("A\n\n").unwrap();
    let mut c = EngineCursor::new(&toks);
    c.advance();
    assert!(c.at_end());
    assert!(!c.is_adjacent());
    c.restore(0);
    assert!(!c.at_end());
    assert_eq!(c.pos(), 0);
}

#[test]
fn engine_cursor_expect_keeps_position_on_mismatch() {
    let toks = lex("( A").unwrap();
    let mut c = EngineCursor::new(&toks);
    assert_eq!(c.expect(&Token::LParen), Ok(()));
    assert_eq!(c.pos(), 1);
    assert_eq!(
        c.expect(&Token::RParen),
        Err("expected RParen, got PascalIdent(\"A\")".to_string())
    );
    assert_eq!(c.pos(), 1);
    assert_eq!(c.expect(&pascal("B")), Err("expected PascalIdent(\"B\"), got PascalIdent(\"A\")".to_string()));
    assert_eq!(c.expect(&pascal("A")), Ok(()));
    assert_eq!(c.expect(&Token::RParen), Err("expected RParen, got EOF".to_string()));
    assert_eq!(c.pos(), 2);
}

#[test]
fn machine_cursor_end_is_the_raw_position() {
    let toks = lex("A\n").unwrap();
    let mut c = MachineCursor::new(&toks);
    assert_eq!(c.peek(), Some(&pascal("A")));
    assert_eq!(c.advance().map(|s| s.token.clone()), Some(pascal("A")));
    assert_eq!(c.pos(), 1);
    assert!(!c.at_end());
    assert!(c.peek().is_none());
    assert!(c.peek_raw().is_none());
    assert!(c.advance().is_none());
    assert_eq!(c.pos(), 2);
    assert!(c.at_end());
}

#[test]
fn machine_cursor_expect_consumes_what_it_reads() {
    let toks = lex("A\nB").unwrap();
    let mut c = MachineCursor::new(&toks);
    assert_eq!(c.last_span(), Span { start: 0, end: 0 });
    assert_eq!(
        c.expect(&Token::LParen),
        Err("expected LParen, got PascalIdent(\"A\")".to_string())
    );
    assert_eq!(c.pos(), 1);
    assert_eq!(c.span(), Span { start: 2, end: 3 });
    assert_eq!(c.expect(&pascal("B")), Ok(Span { start: 2, end: 3 }));
    assert_eq!(c.pos(), 3);
    assert_eq!(c.last_span(), Span { start: 2, end: 3 });
    assert_eq!(c.span(), Span { start: 0, end: 0 });
    assert_eq!(c.expect(&Token::LParen), Err("expected LParen, got EOF".to_string()));
    assert_eq!(c.pos(), 3);
}

#[test]
fn machine_cursor_adjacency_does_not_look_past_newlines() {
    let toks = lex("A(B \n)").unwrap();
    let mut c = MachineCursor::new(&toks);
    assert!(!c.is_adjacent());
    c.restore(1);
    assert!(c.is_adjacent());
    c.restore(3);
    assert!(!c.is_adjacent());
    c.restore(5);
    assert!(!c.is_adjacent());
    assert!(c.at_end());
}
