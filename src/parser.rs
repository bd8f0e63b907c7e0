//! The syntax tree that a parser builds from the scanner's tokens.
//!
//! The tokens arrive flat: grouping by operator precedence is the parser's
//! work, not the scanner's.

use vstd::prelude::*;
use crate::lexer::token::{tokens_view, Operator, SpecToken, Token};

verus! {

/// An error met while building the syntax tree.
#[derive(Debug, Copy, Clone, PartialEq, Eq, Structural)]
pub enum ParseError {
    UnexpectedEndOfInput,
}

/// A cursor for reading from a stream of tokens.
///
/// Unlike the scanner's, it keeps no locations: the tokens carry what the
/// parser needs.
pub struct Cursor {
    tokens: Vec<Token>,
    pos: usize,
}

impl Cursor {
    /// The tokens not yet read.
    pub closed spec fn rest(&self) -> Seq<SpecToken> {
        tokens_view(self.tokens@).skip(self.pos as int)
    }

    pub closed spec fn wf(&self) -> bool {
        self.pos <= self.tokens.len()
    }

    /// Constructs a cursor at the start of the token stream.
    pub fn new(tokens: Vec<Token>) -> (r: Self)
        ensures
            r.wf(),
            r.rest() == tokens_view(tokens@),
    {
        let r = Self { tokens, pos: 0 };
        assert(tokens_view(r.tokens@).skip(0) =~= tokens_view(r.tokens@));
        r
    }

    /// The next token, without advancing; an error when the stream is exhausted.
    pub fn peek(&self) -> (r: Result<Token, ParseError>)
        requires
            self.wf(),
        ensures
            match r {
                Ok(t) => self.rest().len() > 0 && t@ == self.rest()[0],
                Err(e) => self.rest().len() == 0 && e == ParseError::UnexpectedEndOfInput,
            },
    {
        if self.pos < self.tokens.len() {
            Ok(self.tokens[self.pos].duplicate())
        } else {
            Err(ParseError::UnexpectedEndOfInput)
        }
    }

    /// The next token, advancing past it; an error when the stream is exhausted.
    pub fn eat(&mut self) -> (r: Result<Token, ParseError>)
        requires
            old(self).wf(),
        ensures
            final(self).wf(),
            match r {
                Ok(t) => old(self).rest().len() > 0 && t@ == old(self).rest()[0]
                    && final(self).rest() == old(self).rest().drop_first(),
                Err(e) => old(self).rest().len() == 0 && e == ParseError::UnexpectedEndOfInput
                    && final(self).rest() == old(self).rest(),
            },
    {
        if self.pos < self.tokens.len() {
            let t = self.tokens[self.pos].duplicate();
            self.pos = self.pos + 1;
            assert(tokens_view(self.tokens@).skip(self.pos as int) =~= tokens_view(
                self.tokens@,
            ).skip(self.pos - 1).drop_first());
            Ok(t)
        } else {
            Err(ParseError::UnexpectedEndOfInput)
        }
    }
}

/// The sorts of statement of the language.
#[derive(Debug, Copy, Clone, PartialEq, Eq, Structural)]
pub enum Statement {
    ForStatement,
    WhileStatement,
    IfStatement,
    AssignmentStatement,
    DoUntilStatement,
    SwitchStatement,
}

/// A block consists of zero or more statements.
pub type Block = Vec<Statement>;

/// A "do ... until ..." statement.
pub struct DoUntilStatement {
    pub predicate: Expression,
    pub block: Block,
}

/// A switch statement.
pub struct SwitchStatement {
    pub cases: Vec<SwitchCase>,
    pub default: Vec<DefaultCase>,
}

pub struct SwitchCase {
    pub predicate: Expression,
    pub block: Block,
}

pub struct DefaultCase {
    pub block: Block,
}

pub struct IfStatement {
    pub case_if: If,
    pub cases_elif: Vec<If>,
    pub case_else: Else,
}

/// A condition and its block; it serves for `elseif` too.
pub struct If {
    pub predicate: Expression,
    pub block: Block,
}

pub struct Else {
    pub block: Block,
}

/// A for statement.
pub struct ForStatement {
    pub ident: String,
    pub start: u32,
    pub stop: u32,
    pub block: Block,
}

pub struct WhileStatement {
    pub predicate: Expression,
    pub block: Block,
}

/// An operator applied to its operands.
pub struct Expression {
    pub operator: Operator,
    pub operands: Vec<Box<Expression>>,
}

} // verus!
