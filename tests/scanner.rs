use pseudocode::lexer::lex;
use pseudocode::lexer::token::{
    Construct, Keyword, LexError, Loc, Operator, Punctuation, Span, SpannedToken, Token,
};

fn ident(s: &str) -> Token {
    Token::Ident(s.to_string())
}

fn kw(k: Keyword) -> Token {
    Token::Keyword(k)
}

fn op(o: Operator) -> Token {
    Token::Operator(o)
}

fn punct(p: Punctuation) -> Token {
    Token::Punctuation(p)
}

fn unexpected(line: u32, col: u32, text: &str) -> LexError {
    let l = Loc::new(line, col);
    LexError::UnexpectedToken(SpannedToken::new(Span::new(l, l), text.to_string()))
}

#[test]
fn single_assignment() {
    assert_eq!(
        lex("x = 12\n"),
        Ok(vec![ident("x"), op(Operator::Equals), Token::Integer(12)])
    );
}

#[test]
fn two_assignments() {
    assert_eq!(
        lex("fourtyTwo = 42\nfiftyFive = 12 + 8 * 3\n"),
        Ok(vec![
            ident("fourtyTwo"),
            op(Operator::Equals),
            Token::Integer(42),
            ident("fiftyFive"),
            op(Operator::Equals),
            Token::Integer(12),
            op(Operator::Plus),
            Token::Integer(8),
            op(Operator::Times),
            Token::Integer(3),
        ])
    );
}

#[test]
fn function_definition() {
    assert_eq!(
        lex("function f(x, y, z)\n    return x * y * z\nendfunction\n"),
        Ok(vec![
            kw(Keyword::Function),
            ident("f"),
            punct(Punctuation::OpenRoundBracket),
            ident("x"),
            punct(Punctuation::Comma),
            ident("y"),
            punct(Punctuation::Comma),
            ident("z"),
            punct(Punctuation::CloseRoundBracket),
            kw(Keyword::Return),
            ident("x"),
            op(Operator::Times),
            ident("y"),
            op(Operator::Times),
            ident("z"),
            kw(Keyword::EndFunction),
        ])
    );
}

#[test]
fn if_without_condition() {
    assert_eq!(
        lex("if then\n    print(\"hello\")\nendif\n"),
        Err(unexpected(0, 3, "then"))
    );
}

#[test]
fn while_loop() {
    assert_eq!(
        lex("while x!=13\n    x += 1\nendwhile\n"),
        Ok(vec![
            kw(Keyword::While),
            ident("x"),
            op(Operator::NotEquals),
            Token::Integer(13),
            ident("x"),
            op(Operator::Increment),
            Token::Integer(1),
            kw(Keyword::EndWhile),
        ])
    );
}

#[test]
fn unterminated_string() {
    assert_eq!(
        lex("x = \"abc\n"),
        Err(LexError::UnexpectedEndOfInput(Construct::StringLiteral))
    );
}

#[test]
fn same_text_same_tokens() {
    let text = "if a == 1 then\n  b = f(a, 2 )\nelse\n  b = 3\nendif\n";
    assert_eq!(lex(text), lex(text));
    assert!(lex(text).is_ok());
}

#[test]
fn empty_and_blank_inputs() {
    assert_eq!(lex(""), Ok(vec![]));
    assert_eq!(lex("  \n\t\n   "), Ok(vec![]));
}

#[test]
fn string_literal_tokens() {
    assert_eq!(
        lex("s = \"a b\"\n"),
        Ok(vec![
            ident("s"),
            op(Operator::Equals),
            punct(Punctuation::Quote),
            Token::String("a b".to_string()),
            punct(Punctuation::Quote),
        ])
    );
}

#[test]
fn decimal_literal() {
    assert_eq!(
        lex("pi = 3.25\n"),
        Ok(vec![ident("pi"), op(Operator::Equals), Token::Float("3.25".to_string())])
    );
}

#[test]
fn largest_integer() {
    assert_eq!(
        lex("n = 9223372036854775807\n"),
        Ok(vec![ident("n"), op(Operator::Equals), Token::Integer(i64::MAX)])
    );
}

#[test]
fn integer_too_large() {
    assert_eq!(
        lex("n = 9223372036854775808\n"),
        Err(LexError::InvalidNumberLiteral(SpannedToken::new(
            Span::new(Loc::new(0, 4), Loc::new(0, 23)),
            "9223372036854775808".to_string()
        )))
    );
}

#[test]
fn malformed_numerals() {
    assert_eq!(
        lex("n = 12ab\n"),
        Err(LexError::InvalidNumberLiteral(SpannedToken::new(
            Span::new(Loc::new(0, 4), Loc::new(0, 8)),
            "12ab".to_string()
        )))
    );
    assert!(matches!(lex("n = 1.2.3\n"), Err(LexError::InvalidNumberLiteral(_))));
    assert!(matches!(lex("n = 1.5e\n"), Err(LexError::InvalidNumberLiteral(_))));
    assert!(matches!(lex("n = 2e3\n"), Err(LexError::InvalidNumberLiteral(_))));
}

#[test]
fn decimal_literal_forms() {
    for text in ["1.", "2.5e3", "2.5E-3", "1.e+7", "0.125"] {
        assert_eq!(
            lex(&format!("n = {}\n", text)),
            Ok(vec![ident("n"), op(Operator::Equals), Token::Float(text.to_string())])
        );
        assert!(text.parse::<f64>().is_ok());
    }
}

#[test]
fn every_unicode_blank_separates() {
    assert_eq!(
        lex("if a\u{0B}then\u{A0}\n  x = 1 \u{3000}\nendif\n").map(|v| v.len()),
        Ok(7)
    );
    assert_eq!(
        lex("x\u{2003}=\u{85}1\n"),
        Ok(vec![ident("x"), op(Operator::Equals), Token::Integer(1)])
    );
}

#[test]
fn numeral_is_the_whole_lookahead_token() {
    assert_eq!(
        lex("f(1, 2)\n"),
        Err(LexError::InvalidNumberLiteral(SpannedToken::new(
            Span::new(Loc::new(0, 2), Loc::new(0, 4)),
            "1,".to_string()
        )))
    );
    assert_eq!(
        lex("x = 1+2\n"),
        Err(LexError::InvalidNumberLiteral(SpannedToken::new(
            Span::new(Loc::new(0, 4), Loc::new(0, 7)),
            "1+2".to_string()
        )))
    );
    assert!(matches!(lex("x = (1.5)\n"), Err(LexError::InvalidNumberLiteral(_))));
    assert_eq!(
        lex("f(1 , 2 )\n"),
        Ok(vec![
            ident("f"),
            punct(Punctuation::OpenRoundBracket),
            Token::Integer(1),
            punct(Punctuation::Comma),
            Token::Integer(2),
            punct(Punctuation::CloseRoundBracket),
        ])
    );
}

#[test]
fn nested_calls_and_parentheses() {
    assert_eq!(
        lex("x = f(g(1 ), (2 + y))\n"),
        Ok(vec![
            ident("x"),
            op(Operator::Equals),
            ident("f"),
            punct(Punctuation::OpenRoundBracket),
            ident("g"),
            punct(Punctuation::OpenRoundBracket),
            Token::Integer(1),
            punct(Punctuation::CloseRoundBracket),
            punct(Punctuation::Comma),
            punct(Punctuation::OpenRoundBracket),
            Token::Integer(2),
            op(Operator::Plus),
            ident("y"),
            punct(Punctuation::CloseRoundBracket),
            punct(Punctuation::CloseRoundBracket),
        ])
    );
}

#[test]
fn unclosed_parenthesis() {
    assert_eq!(lex("x = (1 + 2\n"), Err(unexpected(0, 10, "")));
    assert_eq!(
        lex("x = (1 + 2"),
        Err(LexError::UnexpectedEndOfInput(Construct::Expression))
    );
    assert_eq!(
        lex("print(1\n"),
        Err(unexpected(0, 7, ""))
    );
}

#[test]
fn unopened_parenthesis() {
    assert_eq!(lex("x = a + b)\n"), Err(unexpected(0, 9, ")")));
}

#[test]
fn word_operators_and_symbols() {
    assert_eq!(
        lex("x = NOT a OR b AND c / d - e\n"),
        Ok(vec![
            ident("x"),
            op(Operator::Equals),
            op(Operator::Not),
            ident("a"),
            op(Operator::Or),
            ident("b"),
            op(Operator::And),
            ident("c"),
            op(Operator::Divide),
            ident("d"),
            op(Operator::Minus),
            ident("e"),
        ])
    );
}

#[test]
fn argument_modifiers_and_colons() {
    assert_eq!(
        lex("x = a:byRef b:byVal c:\n"),
        Ok(vec![
            ident("x"),
            op(Operator::Equals),
            ident("a"),
            punct(Punctuation::ByRef),
            ident("b"),
            punct(Punctuation::ByVal),
            ident("c"),
            punct(Punctuation::Colon),
        ])
    );
}

#[test]
fn if_elseif_else() {
    let text = "if a then\n  x = 1\nelseif b then\n  x = 2\nelseif c then\n  x = 3\nelse\n  x = 4\nendif\n";
    let tokens = lex(text).unwrap();
    let keywords: Vec<Token> = tokens
        .into_iter()
        .filter(|t| matches!(t, Token::Keyword(_)))
        .collect();
    assert_eq!(
        keywords,
        vec![
            kw(Keyword::If),
            kw(Keyword::Then),
            kw(Keyword::ElseIf),
            kw(Keyword::Then),
            kw(Keyword::ElseIf),
            kw(Keyword::Then),
            kw(Keyword::Else),
            kw(Keyword::EndIf),
        ]
    );
}

#[test]
fn for_loop() {
    assert_eq!(
        lex("for i = 1 to 10\n\tx = i\nnext i\n"),
        Ok(vec![
            kw(Keyword::For),
            ident("i"),
            op(Operator::Equals),
            Token::Integer(1),
            kw(Keyword::To),
            Token::Integer(10),
            ident("x"),
            op(Operator::Equals),
            ident("i"),
            kw(Keyword::Next),
            ident("i"),
        ])
    );
}

#[test]
fn switch_statement() {
    let text = "switch x:\n  case 1\n    y = 1\n  case 2\n    y = 2\n  default:\n    y = 3\nendswitch\n";
    assert_eq!(
        lex(text),
        Ok(vec![
            kw(Keyword::Switch),
            ident("x"),
            punct(Punctuation::Colon),
            kw(Keyword::Case),
            Token::Integer(1),
            ident("y"),
            op(Operator::Equals),
            Token::Integer(1),
            kw(Keyword::Case),
            Token::Integer(2),
            ident("y"),
            op(Operator::Equals),
            Token::Integer(2),
            kw(Keyword::Default),
            punct(Punctuation::Colon),
            ident("y"),
            op(Operator::Equals),
            Token::Integer(3),
            kw(Keyword::EndSwitch),
        ])
    );
}

#[test]
fn nested_blocks_close_one_level_at_a_time() {
    let text = "while a\n  while b\n    x = 1\n  endwhile\nendwhile\n";
    assert!(lex(text).is_ok());
}

#[test]
fn dedent_to_no_open_level() {
    assert_eq!(
        lex("while a\n    x = 1\n  endwhile\n"),
        Err(LexError::IndentationError(Loc::new(2, 2)))
    );
}

#[test]
fn dedent_past_the_statement() {
    assert_eq!(
        lex("  while a\n    while b\n      x = 1\n  endwhile\n"),
        Err(unexpected(3, 2, "endwhile"))
    );
}

#[test]
fn block_not_indented() {
    assert_eq!(
        lex("while a\nx = 1\nendwhile\n"),
        Err(LexError::IndentationError(Loc::new(1, 0)))
    );
}

#[test]
fn top_level_lines_share_a_width() {
    assert_eq!(
        lex("x = 1\n  y = 2\n"),
        Err(LexError::IndentationError(Loc::new(1, 2)))
    );
}

#[test]
fn tab_counts_four() {
    assert_eq!(
        lex("while a\n\tx = 1\n    y = 2\nendwhile\n").map(|v| v.len()),
        Ok(9)
    );
}

#[test]
fn block_cut_by_end_of_input() {
    assert_eq!(
        lex("while a\n  x = 1\n"),
        Err(LexError::UnexpectedEndOfInput(Construct::Block))
    );
}

#[test]
fn missing_assignment_operator() {
    assert_eq!(lex("x 1\n"), Err(unexpected(0, 2, "1")));
}

#[test]
fn expression_runs_to_end_of_line() {
    assert_eq!(
        lex("x = 1 y = 2\n"),
        Ok(vec![
            ident("x"),
            op(Operator::Equals),
            Token::Integer(1),
            ident("y"),
            op(Operator::Equals),
            Token::Integer(2),
        ])
    );
}

#[test]
fn statement_needs_its_own_line() {
    assert_eq!(lex("x = 1 endif\n"), Err(unexpected(0, 6, "endif")));
}

#[test]
fn location_counts_lines_and_tabs() {
    assert_eq!(
        lex("x = 1\n\ny = \t$\n"),
        Err(unexpected(2, 8, "$"))
    );
}

#[test]
fn trailing_text_without_newline() {
    assert_eq!(
        lex("x = 1"),
        Ok(vec![ident("x"), op(Operator::Equals), Token::Integer(1)])
    );
}

#[test]
fn parentheses_inside_strings_are_text() {
    assert_eq!(
        lex("print(\")(\")\n"),
        Ok(vec![
            ident("print"),
            punct(Punctuation::OpenRoundBracket),
            punct(Punctuation::Quote),
            Token::String(")(".to_string()),
            punct(Punctuation::Quote),
            punct(Punctuation::CloseRoundBracket),
        ])
    );
}

#[test]
fn odd_quote_count_rejected() {
    assert_eq!(
        lex("x = \"a\" + \"b\n"),
        Err(LexError::UnexpectedEndOfInput(Construct::StringLiteral))
    );
    assert!(lex("x = a\"\ny = 1\n").is_err());
}

#[test]
fn successful_scan_balances_parentheses() {
    let tokens = lex("x = ((a) + f(b, (c)))\ny = g()\n").unwrap();
    let mut depth: i64 = 0;
    for t in &tokens {
        match t {
            Token::Punctuation(Punctuation::OpenRoundBracket) => depth += 1,
            Token::Punctuation(Punctuation::CloseRoundBracket) => depth -= 1,
            _ => {}
        }
        assert!(depth >= 0);
    }
    assert_eq!(depth, 0);
}

#[test]
fn non_blank_input_gives_tokens() {
    let tokens = lex("\n\n   return 0\n\n").unwrap();
    assert_eq!(tokens, vec![kw(Keyword::Return), Token::Integer(0)]);
}

#[test]
fn empty_call_and_trailing_comma() {
    assert_eq!(
        lex("f()\ng(a,)\n"),
        Ok(vec![
            ident("f"),
            punct(Punctuation::OpenRoundBracket),
            punct(Punctuation::CloseRoundBracket),
            ident("g"),
            punct(Punctuation::OpenRoundBracket),
            ident("a"),
            punct(Punctuation::Comma),
            punct(Punctuation::CloseRoundBracket),
        ])
    );
}

#[test]
fn call_cut_by_end_of_input() {
    assert_eq!(
        lex("f(a,"),
        Err(LexError::UnexpectedEndOfInput(Construct::Expression))
    );
}

#[test]
fn missing_closing_keyword() {
    assert_eq!(
        lex("while a\n  x = 1\ny = 2\n"),
        Err(unexpected(2, 0, "y"))
    );
}

#[test]
fn switch_requires_default() {
    assert_eq!(
        lex("switch x:\n  case 1\n    y = 1\nendswitch\n"),
        Err(unexpected(3, 0, "endswitch"))
    );
}

#[test]
fn function_without_parameters_list() {
    assert_eq!(lex("function f\n  x = 1\nendfunction\n"), Err(unexpected(0, 10, "")));
}

#[test]
fn missing_end_keyword_after_deeper_dedent() {
    assert_eq!(
        lex("function f()\n  while a\n    x = 1\nendfunction\n"),
        Err(unexpected(3, 0, "endfunction"))
    );
    assert_eq!(
        lex("while a\n  if b then\n    x = 1\nendwhile\n"),
        Err(unexpected(3, 0, "endwhile"))
    );
}
