//! The tokens, source locations and errors produced by the scanner.

use vstd::prelude::*;

verus! {

/// A reserved word of the language.
#[derive(Debug, Copy, Clone, PartialEq, Eq, Structural)]
pub enum Keyword {
    Function,
    EndFunction,
    If,
    Then,
    ElseIf,
    Else,
    EndIf,
    Switch,
    Case,
    Default,
    EndSwitch,
    While,
    EndWhile,
    Do,
    Until,
    For,
    To,
    Next,
    Return,
}

/// An item of punctuation.
#[derive(Debug, Copy, Clone, PartialEq, Eq, Structural, PartialOrd, Ord)]
pub enum Punctuation {
    OpenRoundBracket,
    CloseRoundBracket,
    ByRef,
    ByVal,
    Colon,
    Comma,
    Quote,
}

/// An operator.
#[derive(Debug, Copy, Clone, PartialEq, Eq, Structural)]
pub enum Operator {
    Equals,
    Times,
    Plus,
    Minus,
    Divide,
    Comparison,
    And,
    Or,
    Not,
    NotEquals,
    Increment,
}

/// A single token lexed from the input stream.
///
/// A floating-point literal is kept as the text that was read (digits, a
/// dot, digits), which every float parser accepts.
#[derive(Debug, Clone, PartialEq)]
pub enum Token {
    Keyword(Keyword),
    Ident(String),
    Punctuation(Punctuation),
    Operator(Operator),
    Integer(i64),
    String(String),
    Comment(String),
    MultiLineComment(String),
    Float(String),
}

/// The mathematical value of a [`Token`]: text payloads are character sequences.
pub enum SpecToken {
    Keyword(Keyword),
    Ident(Seq<char>),
    Punctuation(Punctuation),
    Operator(Operator),
    Integer(i64),
    Str(Seq<char>),
    Comment(Seq<char>),
    MultiLineComment(Seq<char>),
    Float(Seq<char>),
}

impl View for Token {
    type V = SpecToken;

    open spec fn view(&self) -> SpecToken {
        match self {
            Token::Keyword(k) => SpecToken::Keyword(*k),
            Token::Ident(s) => SpecToken::Ident(s@),
            Token::Punctuation(p) => SpecToken::Punctuation(*p),
            Token::Operator(o) => SpecToken::Operator(*o),
            Token::Integer(i) => SpecToken::Integer(*i),
            Token::String(s) => SpecToken::Str(s@),
            Token::Comment(s) => SpecToken::Comment(s@),
            Token::MultiLineComment(s) => SpecToken::MultiLineComment(s@),
            Token::Float(s) => SpecToken::Float(s@),
        }
    }
}

impl Token {
    /// A token equal to this one.
    pub fn duplicate(&self) -> (r: Token)
        ensures
            r@ == self@,
    {
        match self {
            Token::Keyword(k) => Token::Keyword(*k),
            Token::Ident(s) => Token::Ident(s.clone()),
            Token::Punctuation(p) => Token::Punctuation(*p),
            Token::Operator(o) => Token::Operator(*o),
            Token::Integer(i) => Token::Integer(*i),
            Token::String(s) => Token::String(s.clone()),
            Token::Comment(s) => Token::Comment(s.clone()),
            Token::MultiLineComment(s) => Token::MultiLineComment(s.clone()),
            Token::Float(s) => Token::Float(s.clone()),
        }
    }
}

/// The views of a sequence of tokens.
pub open spec fn tokens_view(ts: Seq<Token>) -> Seq<SpecToken> {
    ts.map_values(|t: Token| t@)
}

/// A zero-based position in the source: a tab advances the column by four,
/// any other character by one, and a newline starts the next line at column
/// zero. Both counts stop at `u32::MAX`.
#[derive(Copy, Clone, Debug, PartialEq, Eq, Structural)]
pub struct Loc {
    pub line: u32,
    pub col: u32,
}

impl Loc {
    pub fn new(line: u32, col: u32) -> (r: Self)
        ensures
            r == (Loc { line, col }),
    {
        Self { line, col }
    }
}

/// The region of the source from `start` up to `stop`.
#[derive(Debug, Copy, Clone, PartialEq, Eq, Structural)]
pub struct Span {
    pub start: Loc,
    pub stop: Loc,
}

impl Span {
    pub fn new(start: Loc, stop: Loc) -> (r: Self)
        ensures
            r == (Span { start, stop }),
    {
        Self { start, stop }
    }
}

/// A piece of source text together with where it stands.
#[derive(Debug, Clone, PartialEq)]
pub struct SpannedToken {
    pub span: Span,
    pub token: String,
}

impl SpannedToken {
    pub fn new(span: Span, token: String) -> (r: Self)
        ensures
            r.span == span,
            r.token@ == token@,
    {
        Self { span, token }
    }
}

/// What was left incomplete when the input ran out.
#[derive(Debug, Copy, Clone, PartialEq, Eq, Structural)]
pub enum Construct {
    Statement,
    Block,
    Expression,
    StringLiteral,
}

/// An error encountered while conducting lexical analysis.
#[derive(Debug, Clone, PartialEq)]
pub enum LexError {
    /// A required lexeme was not found: where, and the text that stood there.
    UnexpectedToken(SpannedToken),
    /// A line whose indentation matches no open block.
    IndentationError(Loc),
    /// The input ended inside an unfinished construct.
    UnexpectedEndOfInput(Construct),
    /// A numeral that is not a valid integer or decimal literal.
    InvalidNumberLiteral(SpannedToken),
}

/// The mathematical value of a [`LexError`].
pub enum SpecLexError {
    UnexpectedToken(Span, Seq<char>),
    IndentationError(Loc),
    UnexpectedEndOfInput(Construct),
    InvalidNumberLiteral(Span, Seq<char>),
}

impl View for LexError {
    type V = SpecLexError;

    open spec fn view(&self) -> SpecLexError {
        match self {
            LexError::UnexpectedToken(t) => SpecLexError::UnexpectedToken(t.span, t.token@),
            LexError::IndentationError(l) => SpecLexError::IndentationError(*l),
            LexError::UnexpectedEndOfInput(c) => SpecLexError::UnexpectedEndOfInput(*c),
            LexError::InvalidNumberLiteral(t) => SpecLexError::InvalidNumberLiteral(
                t.span,
                t.token@,
            ),
        }
    }
}

} // verus!
