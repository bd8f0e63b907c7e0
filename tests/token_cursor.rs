use pseudocode::lexer::lex;
use pseudocode::lexer::token::{Operator, Token};
use pseudocode::parser::{Cursor, ParseError};
use pseudocode::type_checker::{Path, Type};

#[test]
fn cursor_reads_tokens_in_order() {
    let tokens = lex("x = 1\n").unwrap();
    let mut cursor = Cursor::new(tokens);
    assert_eq!(cursor.peek(), Ok(Token::Ident("x".to_string())));
    assert_eq!(cursor.eat(), Ok(Token::Ident("x".to_string())));
    assert_eq!(cursor.peek(), Ok(Token::Operator(Operator::Equals)));
    assert_eq!(cursor.eat(), Ok(Token::Operator(Operator::Equals)));
    assert_eq!(cursor.eat(), Ok(Token::Integer(1)));
    assert_eq!(cursor.peek(), Err(ParseError::UnexpectedEndOfInput));
    assert_eq!(cursor.eat(), Err(ParseError::UnexpectedEndOfInput));
}

#[test]
fn empty_stream_is_exhausted() {
    let cursor = Cursor::new(vec![]);
    assert_eq!(cursor.peek(), Err(ParseError::UnexpectedEndOfInput));
}

fn path(parts: &[&str]) -> Path {
    Path { parts: parts.iter().map(|p| p.to_string()).collect() }
}

#[test]
fn types_are_equal_by_name_and_scope() {
    let a = Type { id: 1, name: "Point".to_string(), location: path(&["main", "geometry"]) };
    let b = Type { id: 2, name: "Point".to_string(), location: path(&["main", "geometry"]) };
    let c = Type { id: 1, name: "Point".to_string(), location: path(&["main"]) };
    let d = Type { id: 1, name: "Line".to_string(), location: path(&["main", "geometry"]) };
    assert!(a == b);
    assert!(a != c);
    assert!(a != d);
    assert!(path(&[]) == path(&[]));
    assert!(path(&["a"]) != path(&["b"]));
}
