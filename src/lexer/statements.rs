//! Executable statements and blocks.

use vstd::prelude::*;
use crate::lexer::cursor::{completed, keyword_str, operator_str, step_from, Cursor};
use crate::lexer::grammar::{
    application, assignment, at_keyword, at_level, block, block_lines, closer, condition_header,
    for_header, for_statement, function_header, function_statement, if_rest, if_statement,
    keyword_colon_line, keyword_expression_line, lemma_run_end, lemma_text_at_unmarked,
    lemma_texts_marks, lemma_texts_nonempty, loc_at, open_level, operator_text, outcome,
    parameter_list, parameters, remaining, return_statement, run_end, statement, statement_alone,
    statement_at, switch_clauses, switch_header, switch_statement, text_at, top_level, top_line_end,
    unmarked, while_statement, CharClass, LineEnd, ScanState,
};
use crate::lexer::token::{Construct, Keyword, LexError, Operator, Punctuation, Token};

verus! {

/// What follows a top-level statement.
enum TopLine {
    Done,
    Failed(LexError),
    Next,
}

impl Cursor {
    /// Whether the characters from `p` up to `e` hold `c`.
    fn holds_char(&self, p: usize, e: usize, c: char) -> (r: bool)
        requires
            p <= e <= self.chars.len(),
        ensures
            r == self.chars@.subrange(p as int, e as int).contains(c),
    {
        let ghost t = self.chars@.subrange(p as int, e as int);
        let mut i = p;
        while i < e
            invariant
                p <= i <= e <= self.chars.len(),
                t == self.chars@.subrange(p as int, e as int),
                forall|j: int| 0 <= j < i - p ==> t[j] != c,
            decreases e - i,
        {
            if self.chars[i] == c {
                assert(t[i - p] == c);
                return true;
            }
            i = i + 1;
        }
        false
    }

    /// Whether the line reached stands at the width of the innermost open block.
    pub fn at_level(&self) -> (r: bool)
        requires
            self.wf(),
        ensures
            r == at_level(self.chars@, self.state()),
    {
        self.indents.len() > 0 && self.loc.col == self.indents[self.indents.len() - 1]
    }

    /// Whether `w` is the width of an open block other than the innermost.
    fn outer_level(&self, w: u32) -> (r: bool)
        requires
            self.indents.len() > 0,
        ensures
            r == self.indents@.drop_last().contains(w),
    {
        let n = self.indents.len() - 1;
        let ghost t = self.indents@.drop_last();
        let mut i: usize = 0;
        while i < n
            invariant
                n == self.indents.len() - 1,
                t == self.indents@.drop_last(),
                i <= n,
                forall|j: int| 0 <= j < i ==> t[j] != w,
            decreases n - i,
        {
            if self.indents[i] == w {
                assert(t[i as int] == w);
                return true;
            }
            i = i + 1;
        }
        false
    }

    fn closer(&mut self, k: Keyword) -> (r: Result<(), LexError>)
        requires
            old(self).wf(),
        ensures
            step_from(*old(self), *final(self)),
            outcome(r, final(self).state(), closer(old(self).chars@, old(self).state(), k)),
            r is Ok ==> completed(*old(self), *final(self)),
    {
        if self.at_level() {
            self.lex_specific_keyword(k)
        } else {
            Err(self.unexpected(self.pos))
        }
    }

    /// Opens a level of indentation at the next non-blank line.
    fn open_level(&mut self) -> (r: Result<(), LexError>)
        requires
            old(self).wf(),
        ensures
            final(self).wf(),
            final(self).chars == old(self).chars,
            outcome(r, final(self).state(), open_level(old(self).chars@, old(self).state())),
            r is Ok ==> old(self).pos <= final(self).pos && final(self).depth == old(self).depth
                && final(self).indents@.drop_last() == old(self).indents@
                && final(self).indents@.len() == old(self).indents@.len() + 1,
    {
        self.skip(CharClass::Space);
        if self.pos >= self.chars.len() {
            return Err(LexError::UnexpectedEndOfInput(Construct::Block));
        }
        let l = self.loc;
        if self.indents.len() > 0 && l.col <= self.indents[self.indents.len() - 1] {
            return Err(LexError::IndentationError(l));
        }
        let ghost before = self.indents@;
        self.indents.push(l.col);
        assert(self.indents@.drop_last() =~= before);
        Ok(())
    }

    pub fn lex_parameters(&mut self) -> (r: Result<(), LexError>)
        requires
            old(self).wf(),
            old(self).depth > 0,
        ensures
            step_from(*old(self), *final(self)),
            outcome(r, final(self).state(), parameters(old(self).chars@, old(self).state())),
            r is Ok ==> old(self).pos < final(self).pos
                && old(self).output.len() < final(self).output.len()
                && final(self).depth + 1 == old(self).depth,
    {
        let ghost s = self.chars@;
        let ghost entry = self.state();
        let d = self.depth;
        loop
            invariant
                self.wf(),
                self.chars@ == s,
                self.chars == old(self).chars,
                self.indents@ == old(self).indents@,
                entry == old(self).state(),
                s == old(self).chars@,
                entry.pos <= self.pos,
                old(self).output.len() <= self.output.len(),
                self.depth == d,
                d == entry.depth,
                d > 0,
                parameters(s, entry) == parameters(s, self.state()),
            decreases self.chars.len() - self.pos,
        {
            self.skip(CharClass::Blank);
            let p = self.pos;
            if p < self.chars.len() && self.chars[p] == ')' {
                self.emit(Token::Punctuation(Punctuation::CloseRoundBracket), p + 1);
                return Ok(());
            }
            if let Err(x) = self.lex_identifier(Construct::Statement) {
                return Err(x);
            }
            let q = self.run_end(self.pos, CharClass::Blank);
            proof {
                lemma_run_end(s, self.pos as int, CharClass::Blank);
            }
            proof {
                lemma_texts_marks();
            }
            if q < self.chars.len() && self.chars[q] == ',' {
                self.advance_to(q);
                assert(unmarked(s, q as int, q + 1));
                self.emit(Token::Punctuation(Punctuation::Comma), q + 1);
            } else if q < self.chars.len() && self.chars[q] == ')' {
                self.advance_to(q);
                self.emit(Token::Punctuation(Punctuation::CloseRoundBracket), q + 1);
                return Ok(());
            } else {
                return Err(self.fail(q, Construct::Statement));
            }
        }
    }

    /// The parameter list of a function definition, at its opening parenthesis.
    pub fn lex_function_arguments(&mut self) -> (r: Result<(), LexError>)
        requires
            old(self).wf(),
        ensures
            step_from(*old(self), *final(self)),
            outcome(r, final(self).state(), parameter_list(old(self).chars@, old(self).state())),
            r is Ok ==> completed(*old(self), *final(self)),
    {
        if let Err(x) = self.lex_specific_punctuation(Punctuation::OpenRoundBracket) {
            return Err(x);
        }
        self.lex_parameters()
    }

    fn function_header(&mut self) -> (r: Result<(), LexError>)
        requires
            old(self).wf(),
        ensures
            step_from(*old(self), *final(self)),
            outcome(r, final(self).state(), function_header(old(self).chars@, old(self).state())),
            r is Ok ==> completed(*old(self), *final(self)),
    {
        if let Err(x) = self.lex_specific_keyword(Keyword::Function) {
            return Err(x);
        }
        self.skip(CharClass::Blank);
        if let Err(x) = self.lex_identifier(Construct::Statement) {
            return Err(x);
        }
        self.skip(CharClass::Blank);
        if let Err(x) = self.lex_function_arguments() {
            return Err(x);
        }
        self.lex_newline(Construct::Statement)
    }

    fn condition_header(&mut self) -> (r: Result<(), LexError>)
        requires
            old(self).wf(),
        ensures
            step_from(*old(self), *final(self)),
            outcome(r, final(self).state(), condition_header(old(self).chars@, old(self).state())),
            r is Ok ==> completed(*old(self), *final(self)),
    {
        if let Err(x) = self.lex_expression() {
            return Err(x);
        }
        if let Err(x) = self.lex_specific_keyword(Keyword::Then) {
            return Err(x);
        }
        self.lex_newline(Construct::Statement)
    }

    fn keyword_expression_line(&mut self, k: Keyword) -> (r: Result<(), LexError>)
        requires
            old(self).wf(),
        ensures
            step_from(*old(self), *final(self)),
            outcome(
                r,
                final(self).state(),
                keyword_expression_line(old(self).chars@, old(self).state(), k),
            ),
            r is Ok ==> completed(*old(self), *final(self)),
    {
        if let Err(x) = self.lex_specific_keyword(k) {
            return Err(x);
        }
        if let Err(x) = self.lex_expression() {
            return Err(x);
        }
        self.lex_newline(Construct::Statement)
    }

    fn keyword_colon_line(&mut self, k: Keyword) -> (r: Result<(), LexError>)
        requires
            old(self).wf(),
        ensures
            step_from(*old(self), *final(self)),
            outcome(
                r,
                final(self).state(),
                keyword_colon_line(old(self).chars@, old(self).state(), k),
            ),
            r is Ok ==> completed(*old(self), *final(self)),
    {
        if let Err(x) = self.lex_specific_keyword(k) {
            return Err(x);
        }
        if let Err(x) = {
            self.skip(CharClass::Blank);
            self.lex_specific_punctuation(Punctuation::Colon)
        } {
            return Err(x);
        }
        self.lex_newline(Construct::Statement)
    }

    fn switch_header(&mut self) -> (r: Result<(), LexError>)
        requires
            old(self).wf(),
        ensures
            step_from(*old(self), *final(self)),
            outcome(r, final(self).state(), switch_header(old(self).chars@, old(self).state())),
            r is Ok ==> completed(*old(self), *final(self)),
    {
        if let Err(x) = self.lex_specific_keyword(Keyword::Switch) {
            return Err(x);
        }
        self.skip(CharClass::Blank);
        if let Err(x) = self.lex_identifier(Construct::Statement) {
            return Err(x);
        }
        if let Err(x) = {
            self.skip(CharClass::Blank);
            self.lex_specific_punctuation(Punctuation::Colon)
        } {
            return Err(x);
        }
        self.lex_newline(Construct::Statement)
    }

    fn for_header(&mut self) -> (r: Result<(), LexError>)
        requires
            old(self).wf(),
        ensures
            step_from(*old(self), *final(self)),
            outcome(r, final(self).state(), for_header(old(self).chars@, old(self).state())),
            r is Ok ==> completed(*old(self), *final(self)),
    {
        if let Err(x) = self.lex_specific_keyword(Keyword::For) {
            return Err(x);
        }
        self.skip(CharClass::Blank);
        if let Err(x) = self.lex_identifier(Construct::Statement) {
            return Err(x);
        }
        self.skip(CharClass::Blank);
        if let Err(x) = self.lex_specific_operator(Operator::Equals) {
            return Err(x);
        }
        if let Err(x) = self.lex_expression() {
            return Err(x);
        }
        if let Err(x) = self.lex_specific_keyword(Keyword::To) {
            return Err(x);
        }
        if let Err(x) = self.lex_expression() {
            return Err(x);
        }
        self.lex_newline(Construct::Statement)
    }

    /// A function application: the callee's name, then its argument list.
    pub fn lex_application(&mut self) -> (r: Result<(), LexError>)
        requires
            old(self).wf(),
        ensures
            step_from(*old(self), *final(self)),
            outcome(r, final(self).state(), application(old(self).chars@, old(self).state())),
            r is Ok ==> completed(*old(self), *final(self)),
    {
        if let Err(x) = self.lex_identifier(Construct::Statement) {
            return Err(x);
        }
        self.lex_argument_list()
    }

    pub fn lex_return_statement(&mut self) -> (r: Result<(), LexError>)
        requires
            old(self).wf(),
        ensures
            step_from(*old(self), *final(self)),
            outcome(r, final(self).state(), return_statement(old(self).chars@, old(self).state())),
            r is Ok ==> completed(*old(self), *final(self)),
    {
        if let Err(x) = self.lex_specific_keyword(Keyword::Return) {
            return Err(x);
        }
        self.lex_expression()
    }

    pub fn lex_assignment_statement(&mut self) -> (r: Result<(), LexError>)
        requires
            old(self).wf(),
        ensures
            step_from(*old(self), *final(self)),
            outcome(r, final(self).state(), assignment(old(self).chars@, old(self).state())),
            r is Ok ==> completed(*old(self), *final(self)),
    {
        if let Err(x) = self.lex_identifier(Construct::Statement) {
            return Err(x);
        }
        let p = self.run_end(self.pos, CharClass::Blank);
        proof {
            lemma_texts_nonempty();
        }
        proof {
            lemma_run_end(self.chars@, self.pos as int, CharClass::Blank);
            lemma_texts_marks();
        }
        if self.text_at(p, operator_str(Operator::Equals)) {
            proof {
                lemma_text_at_unmarked(self.chars@, p as int, operator_text(Operator::Equals));
            }
            let n = operator_str(Operator::Equals).unicode_len();
            self.emit(Token::Operator(Operator::Equals), p + n);
        } else if self.text_at(p, operator_str(Operator::Increment)) {
            proof {
                lemma_text_at_unmarked(self.chars@, p as int, operator_text(Operator::Increment));
            }
            let n = operator_str(Operator::Increment).unicode_len();
            self.emit(Token::Operator(Operator::Increment), p + n);
        } else {
            return Err(self.fail(p, Construct::Statement));
        }
        self.lex_expression()
    }

    /// A statement, after any blank lines and blanks before it. With no
    /// block open, the statement's own column serves as the level of its
    /// closing keyword, and no block is left open after it.
    pub fn lex_statement(&mut self) -> (r: Result<(), LexError>)
        requires
            old(self).wf(),
        ensures
            final(self).wf(),
            final(self).chars == old(self).chars,
            outcome(r, final(self).state(), statement(old(self).chars@, old(self).state())),
            r is Ok ==> completed(*old(self), *final(self)),
            run_end(old(self).chars@, old(self).pos as int, CharClass::Space)
                >= old(self).chars.len() ==> final(self).output@ == old(self).output@,
        decreases remaining(old(self).chars@, old(self).state()), 7nat,
    {
        self.skip(CharClass::Space);
        if self.pos >= self.chars.len() {
            return Err(LexError::UnexpectedEndOfInput(Construct::Statement));
        }
        if self.indents.len() == 0 {
            self.lex_statement_alone()
        } else {
            self.lex_statement_at()
        }
    }

    /// A statement at its first character with no block open.
    #[verifier::spinoff_prover]
    pub fn lex_statement_alone(&mut self) -> (r: Result<(), LexError>)
        requires
            old(self).wf(),
            old(self).indents.len() == 0,
        ensures
            final(self).wf(),
            final(self).chars == old(self).chars,
            outcome(r, final(self).state(), statement_alone(old(self).chars@, old(self).state())),
            r is Ok ==> completed(*old(self), *final(self)),
        decreases remaining(old(self).chars@, old(self).state()), 6nat,
    {
        let ghost s = self.chars@;
        let ghost here = self.state();
        let col = self.loc.col;
        self.indents = vec![col];
        let ghost pushed = self.state();
        assert(pushed == (ScanState { indents: seq![loc_at(s, here.pos).col], ..here })) by {
            assert(self.indents@ =~= seq![col]);
        }
        let r = self.lex_statement_at();
        self.indents = Vec::new();
        proof {
            assert(self.indents@ =~= here.indents);
            assert(statement_alone(s, here) == match statement_at(s, pushed) {
                Ok(st1) => Ok(ScanState { indents: here.indents, ..st1 }),
                Err(e) => Err(e),
            });
        }
        r
    }

    /// A statement at its first character.
    pub fn lex_statement_at(&mut self) -> (r: Result<(), LexError>)
        requires
            old(self).wf(),
        ensures
            final(self).wf(),
            final(self).chars == old(self).chars,
            outcome(r, final(self).state(), statement_at(old(self).chars@, old(self).state())),
            r is Ok ==> completed(*old(self), *final(self)),
        decreases remaining(old(self).chars@, old(self).state()), 5nat,
    {
        let p = self.pos;
        let e = self.run_end(p, CharClass::Lexeme);
        if self.holds_char(p, e, '(') {
            self.lex_application()
        } else if self.word_is(p, e, keyword_str(Keyword::Function)) {
            self.lex_function()
        } else if self.word_is(p, e, keyword_str(Keyword::If)) {
            self.lex_if_statement()
        } else if self.word_is(p, e, keyword_str(Keyword::Switch)) {
            self.lex_switch_statement()
        } else if self.word_is(p, e, keyword_str(Keyword::While)) {
            self.lex_while_statement()
        } else if self.word_is(p, e, keyword_str(Keyword::For)) {
            self.lex_for_statement()
        } else if self.word_is(p, e, keyword_str(Keyword::Return)) {
            self.lex_return_statement()
        } else {
            self.lex_assignment_statement()
        }
    }

    /// An indented block, after the end of the line that opens it.
    #[verifier::rlimit(30)]
    pub fn lex_block(&mut self) -> (r: Result<(), LexError>)
        requires
            old(self).wf(),
        ensures
            final(self).wf(),
            final(self).chars == old(self).chars,
            outcome(r, final(self).state(), block(old(self).chars@, old(self).state())),
            r is Ok ==> completed(*old(self), *final(self)),
        decreases remaining(old(self).chars@, old(self).state()), 9nat,
    {
        let ghost s = self.chars@;
        if let Err(x) = self.open_level() {
            return Err(x);
        }
        let ghost entry = self.state();
        loop
            invariant
                self.wf(),
                self.chars@ == s,
                self.chars == old(self).chars,
                s == old(self).chars@,
                old(self).pos <= entry.pos <= self.pos,
                old(self).output.len() <= self.output.len(),
                self.depth == old(self).depth,
                self.indents@ == entry.indents,
                entry.indents.drop_last() == old(self).indents@,
                entry.indents.len() == old(self).indents@.len() + 1,
                block(s, old(self).state()) == block_lines(s, self.state()),
            decreases self.chars.len() - self.pos,
        {
            if let Err(x) = self.lex_statement() {
                return Err(x);
            }
            if let Err(x) = self.lex_newline(Construct::Block) {
                return Err(x);
            }
            self.skip(CharClass::Space);
            if self.pos >= self.chars.len() {
                return Err(LexError::UnexpectedEndOfInput(Construct::Block));
            }
            if !self.at_level() {
                if self.outer_level(self.loc.col) {
                    self.indents.pop();
                    return Ok(());
                } else {
                    return Err(LexError::IndentationError(self.loc));
                }
            }
        }
    }

    pub fn lex_function(&mut self) -> (r: Result<(), LexError>)
        requires
            old(self).wf(),
        ensures
            final(self).wf(),
            final(self).chars == old(self).chars,
            outcome(
                r,
                final(self).state(),
                function_statement(old(self).chars@, old(self).state()),
            ),
            r is Ok ==> completed(*old(self), *final(self)),
        decreases remaining(old(self).chars@, old(self).state()), 4nat,
    {
        if let Err(x) = self.function_header() {
            return Err(x);
        }
        if let Err(x) = self.lex_block() {
            return Err(x);
        }
        self.closer(Keyword::EndFunction)
    }

    pub fn lex_while_statement(&mut self) -> (r: Result<(), LexError>)
        requires
            old(self).wf(),
        ensures
            final(self).wf(),
            final(self).chars == old(self).chars,
            outcome(r, final(self).state(), while_statement(old(self).chars@, old(self).state())),
            r is Ok ==> completed(*old(self), *final(self)),
        decreases remaining(old(self).chars@, old(self).state()), 4nat,
    {
        if let Err(x) = self.keyword_expression_line(Keyword::While) {
            return Err(x);
        }
        if let Err(x) = self.lex_block() {
            return Err(x);
        }
        self.closer(Keyword::EndWhile)
    }

    pub fn lex_for_statement(&mut self) -> (r: Result<(), LexError>)
        requires
            old(self).wf(),
        ensures
            final(self).wf(),
            final(self).chars == old(self).chars,
            outcome(r, final(self).state(), for_statement(old(self).chars@, old(self).state())),
            r is Ok ==> completed(*old(self), *final(self)),
        decreases remaining(old(self).chars@, old(self).state()), 4nat,
    {
        if let Err(x) = self.for_header() {
            return Err(x);
        }
        if let Err(x) = self.lex_block() {
            return Err(x);
        }
        if let Err(x) = self.closer(Keyword::Next) {
            return Err(x);
        }
        self.skip(CharClass::Blank);
        self.lex_identifier(Construct::Statement)
    }

    pub fn lex_if_statement(&mut self) -> (r: Result<(), LexError>)
        requires
            old(self).wf(),
        ensures
            final(self).wf(),
            final(self).chars == old(self).chars,
            outcome(r, final(self).state(), if_statement(old(self).chars@, old(self).state())),
            r is Ok ==> completed(*old(self), *final(self)),
        decreases remaining(old(self).chars@, old(self).state()), 4nat,
    {
        if let Err(x) = self.lex_specific_keyword(Keyword::If) {
            return Err(x);
        }
        if let Err(x) = self.condition_header() {
            return Err(x);
        }
        if let Err(x) = self.lex_block() {
            return Err(x);
        }
        self.lex_if_rest()
    }

    pub fn lex_if_rest(&mut self) -> (r: Result<(), LexError>)
        requires
            old(self).wf(),
        ensures
            final(self).wf(),
            final(self).chars == old(self).chars,
            outcome(r, final(self).state(), if_rest(old(self).chars@, old(self).state())),
            r is Ok ==> completed(*old(self), *final(self)),
        decreases remaining(old(self).chars@, old(self).state()), 4nat,
    {
        if !self.at_level() {
            return Err(self.unexpected(self.pos));
        }
        if self.at_keyword(Keyword::ElseIf) {
            if let Err(x) = self.lex_specific_keyword(Keyword::ElseIf) {
                return Err(x);
            }
            if let Err(x) = self.condition_header() {
                return Err(x);
            }
            if let Err(x) = self.lex_block() {
                return Err(x);
            }
            self.lex_if_rest()
        } else if self.at_keyword(Keyword::Else) {
            if let Err(x) = self.lex_specific_keyword(Keyword::Else) {
                return Err(x);
            }
            if let Err(x) = self.lex_newline(Construct::Statement) {
                return Err(x);
            }
            if let Err(x) = self.lex_block() {
                return Err(x);
            }
            self.closer(Keyword::EndIf)
        } else {
            self.lex_specific_keyword(Keyword::EndIf)
        }
    }

    pub fn lex_switch_statement(&mut self) -> (r: Result<(), LexError>)
        requires
            old(self).wf(),
        ensures
            final(self).wf(),
            final(self).chars == old(self).chars,
            outcome(r, final(self).state(), switch_statement(old(self).chars@, old(self).state())),
            r is Ok ==> completed(*old(self), *final(self)),
        decreases remaining(old(self).chars@, old(self).state()), 4nat,
    {
        if let Err(x) = self.switch_header() {
            return Err(x);
        }
        if let Err(x) = self.open_level() {
            return Err(x);
        }
        self.lex_switch_clauses()
    }

    pub fn lex_switch_clauses(&mut self) -> (r: Result<(), LexError>)
        requires
            old(self).wf(),
            old(self).indents.len() > 0,
        ensures
            final(self).wf(),
            final(self).chars == old(self).chars,
            outcome(r, final(self).state(), switch_clauses(old(self).chars@, old(self).state())),
            r is Ok ==> old(self).pos < final(self).pos
                && old(self).output.len() < final(self).output.len()
                && final(self).depth == old(self).depth
                && final(self).indents@ == old(self).indents@.drop_last(),
        decreases remaining(old(self).chars@, old(self).state()), 4nat,
    {
        if self.at_keyword(Keyword::Case) {
            if let Err(x) = self.keyword_expression_line(Keyword::Case) {
                return Err(x);
            }
            if let Err(x) = self.lex_block() {
                return Err(x);
            }
            if !self.at_level() {
                return Err(self.unexpected(self.pos));
            }
            self.lex_switch_clauses()
        } else {
            if let Err(x) = self.keyword_colon_line(Keyword::Default) {
                return Err(x);
            }
            if let Err(x) = self.lex_block() {
                return Err(x);
            }
            self.indents.pop();
            self.closer(Keyword::EndSwitch)
        }
    }

    /// What follows a top-level statement.
    fn end_top_line(&mut self) -> (r: TopLine)
        requires
            old(self).wf(),
        ensures
            final(self).wf(),
            final(self).chars == old(self).chars,
            final(self).output == old(self).output,
            final(self).depth == old(self).depth,
            final(self).indents@ == old(self).indents@,
            old(self).pos <= final(self).pos,
            match top_line_end(old(self).chars@, old(self).state()) {
                LineEnd::Done(st) => r is Done && final(self).state() == st && final(self).pos
                    == final(self).chars.len(),
                LineEnd::Failed(e) => r matches TopLine::Failed(x) && x@ == e,
                LineEnd::Next(st) => r is Next && final(self).state() == st,
            },
    {
        let ghost s = self.chars@;
        self.skip(CharClass::Blank);
        if self.pos >= self.chars.len() {
            return TopLine::Done;
        }
        if self.chars[self.pos] != '\n' {
            return TopLine::Failed(self.fail(self.pos, Construct::Statement));
        }
        let n = self.pos + 1;
        assert(unmarked(s, self.pos as int, n as int));
        self.advance_to(n);
        self.skip(CharClass::Space);
        if self.pos >= self.chars.len() {
            return TopLine::Done;
        }
        if !self.at_level() {
            return TopLine::Failed(LexError::IndentationError(self.loc));
        }
        TopLine::Next
    }

    /// The top-level statements, from one at the width of the first.
    pub fn lex_top_level(&mut self) -> (r: Result<(), LexError>)
        requires
            old(self).wf(),
        ensures
            final(self).wf(),
            final(self).chars == old(self).chars,
            outcome(r, final(self).state(), top_level(old(self).chars@, old(self).state())),
            r is Ok ==> completed(*old(self), *final(self)) && final(self).pos
                == final(self).chars.len(),
    {
        let ghost s = self.chars@;
        loop
            invariant
                self.wf(),
                self.chars@ == s,
                self.chars == old(self).chars,
                s == old(self).chars@,
                old(self).pos <= self.pos,
                old(self).output.len() <= self.output.len(),
                self.depth == old(self).depth,
                self.indents@ == old(self).indents@,
                top_level(s, old(self).state()) == top_level(s, self.state()),
            decreases self.chars.len() - self.pos,
        {
            if let Err(x) = self.lex_statement() {
                return Err(x);
            }
            match self.end_top_line() {
                TopLine::Done => {
                    return Ok(());
                },
                TopLine::Failed(x) => {
                    return Err(x);
                },
                TopLine::Next => {},
            }
        }
    }
}

} // verus!
