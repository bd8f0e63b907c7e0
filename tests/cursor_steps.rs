use pseudocode::lexer::cursor::Cursor;
use pseudocode::lexer::token::{
    Construct, Keyword, LexError, Loc, Operator, Punctuation, Span, SpannedToken, Token,
};

fn cursor(text: &str) -> Cursor {
    Cursor::new(text.chars().collect())
}

#[test]
fn statement_after_blank_lines() {
    let mut c = cursor("\n        function f(x, y, z)\n            return x * y * z\n        endfunction\n    ");
    assert_eq!(c.lex_statement(), Ok(()));
    assert_eq!(c.output.first(), Some(&Token::Keyword(Keyword::Function)));
    assert_eq!(c.output.last(), Some(&Token::Keyword(Keyword::EndFunction)));
    assert!(c.indents.is_empty());
    assert_eq!(c.depth, 0);
}

#[test]
fn statement_on_blank_input() {
    let mut c = cursor(" \n\n  ");
    assert_eq!(
        c.lex_statement(),
        Err(LexError::UnexpectedEndOfInput(Construct::Statement))
    );
    assert!(c.output.is_empty());
}

#[test]
fn keyword_statement_after_blanks() {
    let mut c = cursor(" return 5");
    assert_eq!(c.lex_statement(), Ok(()));
    assert_eq!(c.output, vec![Token::Keyword(Keyword::Return), Token::Integer(5)]);
}

#[test]
fn closing_parenthesis_with_none_open() {
    let mut c = cursor(")");
    let l = Loc::new(0, 0);
    assert_eq!(
        c.lex_specific_punctuation(Punctuation::CloseRoundBracket),
        Err(LexError::UnexpectedToken(SpannedToken::new(Span::new(l, l), ")".to_string())))
    );
    assert_eq!(c.depth, 0);
    assert_eq!(c.pos, 0);
    assert!(c.output.is_empty());
}

#[test]
fn application_reads_its_callee() {
    let mut c = cursor("f(x, g(y))\n");
    assert_eq!(c.lex_application(), Ok(()));
    assert_eq!(c.output.len(), 9);
    assert_eq!(c.depth, 0);
    assert_eq!(c.pos, 10);
}

#[test]
fn operator_at_the_position_reached() {
    let mut c = cursor(" =");
    assert!(c.lex_specific_operator(Operator::Equals).is_err());
    assert_eq!(c.pos, 0);
    let mut c = cursor("=");
    assert_eq!(c.lex_specific_operator(Operator::Equals), Ok(()));
}

#[test]
fn unterminated_string_at_cursor() {
    let mut c = cursor("\"abc");
    assert_eq!(
        c.lex_string(),
        Err(LexError::UnexpectedEndOfInput(Construct::StringLiteral))
    );
}

#[test]
fn expression_keeps_depth_and_balance() {
    let mut c = cursor("(a + f(b)) * 2\n");
    assert_eq!(c.lex_expression(), Ok(()));
    assert_eq!(c.depth, 0);
    let opens = c.output.iter().filter(|t| **t == Token::Punctuation(Punctuation::OpenRoundBracket)).count();
    let closes = c.output.iter().filter(|t| **t == Token::Punctuation(Punctuation::CloseRoundBracket)).count();
    assert_eq!(opens, closes);
}

#[test]
fn block_rejects_stray_width() {
    let mut c = cursor("while a\n    x = 1\n  y = 2\nendwhile\n");
    assert_eq!(c.lex_statement(), Err(LexError::IndentationError(Loc::new(2, 2))));
}
