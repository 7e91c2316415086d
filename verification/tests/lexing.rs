//! Tokenization: kinds, texts, locations, trivia.

use bada::lex::{Lexer, Token, TokenKind};

fn lexer_of(src: &str) -> Lexer {
    Lexer::new(src.chars().collect(), "main.boom".to_string())
}

fn kinds_of(src: &str) -> Vec<TokenKind> {
    let mut lexer = lexer_of(src);
    let mut kinds = Vec::new();
    loop {
        let t = lexer.next_token();
        let done = t.kind == TokenKind::End;
        kinds.push(t.kind);
        if done {
            return kinds;
        }
    }
}

#[test]
fn tokenizes_a_definition() {
    let mut lexer = lexer_of("main() = 42;");
    let t1 = lexer.next_token();
    assert_eq!(t1.kind, TokenKind::Ident);
    assert_eq!(t1.text, "main");
    assert_eq!((t1.loc.row, t1.loc.col), (1, 1));
    let t2 = lexer.next_token();
    assert_eq!(t2.kind, TokenKind::OpenParen);
    assert_eq!((t2.loc.row, t2.loc.col), (1, 5));
    let t3 = lexer.next_token();
    assert_eq!(t3.kind, TokenKind::ClosedParen);
    let t4 = lexer.next_token();
    assert_eq!(t4.kind, TokenKind::Equals);
    assert_eq!((t4.loc.row, t4.loc.col), (1, 8));
    let t5 = lexer.next_token();
    assert_eq!(t5.kind, TokenKind::Number);
    assert_eq!(t5.text, "42");
    assert_eq!((t5.loc.row, t5.loc.col), (1, 10));
    let t6 = lexer.next_token();
    assert_eq!(t6.kind, TokenKind::SemiColon);
    let t7 = lexer.next_token();
    assert_eq!(t7.kind, TokenKind::End);
}

#[test]
fn skips_whitespace_and_comments() {
    let mut lexer = lexer_of("  // a comment\n\t x");
    let t = lexer.next_token();
    assert_eq!(t.kind, TokenKind::Ident);
    assert_eq!(t.text, "x");
    assert_eq!((t.loc.row, t.loc.col), (2, 3));
    assert_eq!(lexer.next_token().kind, TokenKind::End);
}

#[test]
fn fixed_tokens_and_unknown() {
    let kinds = kinds_of("= + - ; : ( ) @");
    assert_eq!(
        kinds,
        vec![
            TokenKind::Equals,
            TokenKind::Plus,
            TokenKind::Minus,
            TokenKind::SemiColon,
            TokenKind::Colon,
            TokenKind::OpenParen,
            TokenKind::ClosedParen,
            TokenKind::Unknown,
            TokenKind::End,
        ]
    );
}

#[test]
fn empty_input_is_end() {
    let mut lexer = lexer_of("");
    let t = lexer.next_token();
    assert_eq!(t.kind, TokenKind::End);
    assert_eq!(t.text, "");
    assert_eq!((t.loc.row, t.loc.col), (1, 1));
}

#[test]
fn expect_tokens_accepts_and_rejects() {
    let mut lexer = lexer_of("abc");
    let t: Token = lexer
        .expect_tokens(&[TokenKind::Number, TokenKind::Ident])
        .unwrap();
    assert_eq!(t.kind, TokenKind::Ident);

    let mut lexer2 = lexer_of("abc");
    match lexer2.expect_tokens(&[TokenKind::Number]) {
        Err(bada::lex::ParseError::UnexpectedToken { expected, actual }) => {
            assert_eq!(expected, vec![TokenKind::Number]);
            assert_eq!(actual.kind, TokenKind::Ident);
            assert_eq!(actual.text, "abc");
        }
        _ => panic!("expected an unexpected-token error"),
    }
}

#[test]
fn human_names() {
    assert_eq!(TokenKind::Ident.human(), "identifier");
    assert_eq!(TokenKind::SemiColon.human(), "semi-colon");
    assert_eq!(TokenKind::End.human(), "end of input");
    assert_eq!(TokenKind::Unknown.human(), "unknown token");
}

#[test]
fn identifiers_take_trailing_digits() {
    let mut lexer = lexer_of("x1y2 3ab");
    let t = lexer.next_token();
    assert_eq!(t.kind, TokenKind::Ident);
    assert_eq!(t.text, "x1y2");
    // A numeric start lexes a number; the letters form the next token.
    let n = lexer.next_token();
    assert_eq!(n.kind, TokenKind::Number);
    assert_eq!(n.text, "3");
    let r = lexer.next_token();
    assert_eq!(r.kind, TokenKind::Ident);
    assert_eq!(r.text, "ab");
}
