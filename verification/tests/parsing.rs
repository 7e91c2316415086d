//! Parsing: module structure and each rejection.

use bada::lex::{Lexer, ParseError, TokenKind};
use bada::parser::{parse_program, parse_usize, BinopKind, Expr, Module};

fn parse_src(src: &str) -> Result<Module, ParseError> {
    let mut lexer = Lexer::new(src.chars().collect(), "main.boom".to_string());
    Module::parse(&mut lexer)
}

#[test]
fn parses_constants_and_operations() {
    let m = parse_src("main() = 42; f(a int b int) = a + b; g() = 7 - 4;").unwrap();
    assert_eq!(m.funcs.len(), 3);

    let main = &m.funcs[0];
    assert_eq!(main.name.text, "main");
    assert_eq!(main.params.len(), 0);
    assert!(matches!(main.body, Expr::Number(42)));

    let f = &m.funcs[1];
    assert_eq!(f.name.text, "f");
    assert_eq!(f.params.len(), 2);
    assert_eq!(f.params[0].name.text, "a");
    assert_eq!(f.params[0].index, 0);
    assert_eq!(f.params[1].name.text, "b");
    assert_eq!(f.params[1].index, 1);
    match &f.body {
        Expr::Binop(b) => {
            assert!(matches!(b.kind, BinopKind::Sum));
            assert!(matches!(&*b.lhs, Expr::Var(t) if t.text == "a"));
            assert!(matches!(&*b.rhs, Expr::Var(t) if t.text == "b"));
        }
        _ => panic!("expected a binary operation"),
    }

    let g = &m.funcs[2];
    match &g.body {
        Expr::Binop(b) => {
            assert!(matches!(b.kind, BinopKind::Sub));
            assert!(matches!(&*b.lhs, Expr::Number(7)));
            assert!(matches!(&*b.rhs, Expr::Number(4)));
        }
        _ => panic!("expected a binary operation"),
    }
}

#[test]
fn empty_source_is_empty_module() {
    let m = parse_src("").unwrap();
    assert_eq!(m.funcs.len(), 0);
}

#[test]
fn rejects_function_redefinition() {
    match parse_src("f() = 1; f(x int) = 2;") {
        Err(ParseError::FuncRedefinition { name, prior }) => {
            assert_eq!(name.text, "f");
            assert_eq!((name.loc.row, name.loc.col), (1, 10));
            assert_eq!((prior.row, prior.col), (1, 1));
        }
        _ => panic!("expected a function-redefinition error"),
    }
}

#[test]
fn rejects_parameter_redefinition() {
    match parse_src("f(x int x int) = 1;") {
        Err(ParseError::ParamRedefinition { name, prior }) => {
            assert_eq!(name.text, "x");
            assert_eq!((name.loc.row, name.loc.col), (1, 9));
            assert_eq!((prior.row, prior.col), (1, 3));
        }
        _ => panic!("expected a parameter-redefinition error"),
    }
}

#[test]
fn rejects_unknown_type() {
    match parse_src("f(x float) = 1;") {
        Err(ParseError::UnknownType(t)) => assert_eq!(t.text, "float"),
        _ => panic!("expected an unknown-type error"),
    }
}

#[test]
fn rejects_unexpected_token() {
    match parse_src("f() = ;") {
        Err(ParseError::UnexpectedToken { expected, actual }) => {
            assert_eq!(expected, vec![TokenKind::Number, TokenKind::Ident]);
            assert_eq!(actual.kind, TokenKind::SemiColon);
        }
        _ => panic!("expected an unexpected-token error"),
    }
}

#[test]
fn rejects_missing_semicolon() {
    match parse_src("f() = 1") {
        Err(ParseError::UnexpectedToken { expected, actual }) => {
            assert_eq!(
                expected,
                vec![TokenKind::SemiColon, TokenKind::Plus, TokenKind::Minus]
            );
            assert_eq!(actual.kind, TokenKind::End);
        }
        _ => panic!("expected an unexpected-token error"),
    }
}

#[test]
fn rejects_overflowing_number_literal() {
    match parse_src("f() = 99999999999999999999999999;") {
        Err(ParseError::InvalidNumber(t)) => {
            assert_eq!(t.text, "99999999999999999999999999");
        }
        _ => panic!("expected an invalid-number error"),
    }
}

#[test]
fn parse_program_matches_module_parse() {
    let mut lexer = Lexer::new("main() = 1;".chars().collect(), "m.boom".to_string());
    let m = parse_program(&mut lexer).unwrap();
    assert_eq!(m.funcs.len(), 1);
    assert_eq!(m.funcs[0].name.text, "main");
}

#[test]
fn parse_usize_reads_decimal_digits() {
    assert_eq!(parse_usize(&"0".to_string()), Some(0));
    assert_eq!(parse_usize(&"42".to_string()), Some(42));
    assert_eq!(parse_usize(&"007".to_string()), Some(7));
    assert_eq!(
        parse_usize(&usize::MAX.to_string()),
        Some(usize::MAX)
    );
    assert_eq!(parse_usize(&"".to_string()), None);
    assert_eq!(parse_usize(&"1x".to_string()), None);
    assert_eq!(parse_usize(&"-1".to_string()), None);
    // One past the machine word overflows.
    let too_big = format!("{}0", usize::MAX);
    assert_eq!(parse_usize(&too_big), None);
}
