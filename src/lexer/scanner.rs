//! The executable scanner: expressions, statements, blocks and the entry
//! point [`lex`].

use vstd::prelude::*;
use crate::lexer::cursor::{step_from, Cursor};
use crate::lexer::grammar::{
    argument_list, arguments, expr_finish, expr_items, expr_step, expression, lemma_run_end,
    lemma_texts_marks, lemma_texts_nonempty, outcome, punctuation_text, remaining, text_at,
    unmarked, CharClass, ExprStep,
};
use crate::lexer::token::{Construct, LexError, Punctuation, Token};

verus! {

/// What one step of an expression did.
enum Step {
    Finish,
    Next(Result<(), LexError>),
    Call,
}

impl Cursor {
    /// Ends an expression that began at depth `d0` with `n0` tokens produced.
    fn finish_expression(&self, d0: usize, n0: usize) -> (r: Result<(), LexError>)
        requires
            self.wf(),
        ensures
            outcome(r, self.state(), expr_finish(self.chars@, self.state(), d0 as nat, n0 as int)),
    {
        if self.depth != d0 || self.output.len() <= n0 {
            Err(self.fail(self.pos, Construct::Expression))
        } else {
            Ok(())
        }
    }

    /// Reads the next lexeme of an expression whose parentheses started at depth `d0`.
    fn expression_step(&mut self, d0: usize) -> (r: Step)
        requires
            old(self).wf(),
        ensures
            step_from(*old(self), *final(self)),
            match expr_step(old(self).chars@, old(self).state(), d0 as nat) {
                ExprStep::Finish(here) => r is Finish && final(self).state() == here,
                ExprStep::Next(sc) => r matches Step::Next(x) && outcome(x, final(self).state(), sc)
                    && (sc is Ok ==> old(self).pos < final(self).pos),
                ExprStep::Call(st1) => r is Call && final(self).state() == st1 && old(self).pos
                    < final(self).pos && old(self).output.len() < final(self).output.len(),
            },
    {
        let ghost s = self.chars@;
        self.skip(CharClass::Blank);
        let p = self.pos;
        proof {
            lemma_texts_nonempty();
        }
        if p >= self.chars.len() || self.chars[p] == '\n' {
            return Step::Finish;
        }
        let c = self.chars[p];
        if c == '"' {
            Step::Next(self.lex_string())
        } else if ('a' <= c && c <= 'z') || ('A' <= c && c <= 'Z') {
            let e = self.run_end(p, CharClass::Word);
            proof {
                lemma_run_end(s, p as int, CharClass::Word);
            }
            match self.word_operator(p, e) {
                Some(o) => {
                    self.emit(Token::Operator(o), e);
                    Step::Next(Ok(()))
                },
                None => {
                    if self.is_keyword_word(p, e) {
                        return Step::Finish;
                    }
                    let w = self.text(p, e);
                    self.emit(Token::Ident(w), e);
                    if e < self.chars.len() && self.chars[e] == '(' {
                        Step::Call
                    } else {
                        Step::Next(Ok(()))
                    }
                },
            }
        } else if c == '(' {
            self.emit(Token::Punctuation(Punctuation::OpenRoundBracket), p + 1);
            Step::Next(Ok(()))
        } else if c == ')' {
            if self.depth <= d0 {
                return Step::Finish;
            }
            self.emit(Token::Punctuation(Punctuation::CloseRoundBracket), p + 1);
            Step::Next(Ok(()))
        } else if '0' <= c && c <= '9' {
            Step::Next(self.lex_number())
        } else {
            proof {
                lemma_texts_marks();
                if text_at(s, p as int, punctuation_text(Punctuation::Quote)) {
                    assert(s.subrange(p as int, p + 1)[0] == s[p as int]);
                }
            }
            match self.lex_any_punctuation() {
                Ok(()) => Step::Next(Ok(())),
                Err(_) => match self.lex_any_operator() {
                    Ok(()) => Step::Next(Ok(())),
                    Err(_) => Step::Finish,
                },
            }
        }
    }

    pub fn lex_expression(&mut self) -> (r: Result<(), LexError>)
        requires
            old(self).wf(),
        ensures
            step_from(*old(self), *final(self)),
            outcome(r, final(self).state(), expression(old(self).chars@, old(self).state())),
            r is Ok ==> old(self).pos < final(self).pos
                && old(self).output.len() < final(self).output.len()
                && final(self).depth == old(self).depth,
        decreases remaining(old(self).chars@, old(self).state()), 3nat,
    {
        let d0 = self.depth;
        let n0 = self.output.len();
        let ghost s = self.chars@;
        let ghost entry = self.state();
        loop
            invariant
                self.wf(),
                self.chars@ == s,
                self.chars == old(self).chars,
                self.indents@ == old(self).indents@,
                entry == old(self).state(),
                s == old(self).chars@,
                entry.pos <= self.pos,
                d0 == entry.depth,
                n0 == entry.tokens.len(),
                n0 <= self.output.len(),
                self.output.len() > n0 ==> entry.pos < self.pos,
                expression(s, entry) == expr_items(s, self.state(), d0 as nat, n0 as int),
            decreases self.chars.len() - self.pos,
        {
            match self.expression_step(d0) {
                Step::Finish => {
                    return self.finish_expression(d0, n0);
                },
                Step::Next(Err(x)) => {
                    return Err(x);
                },
                Step::Next(Ok(())) => {},
                Step::Call => {
                    match self.lex_argument_list() {
                        Err(x) => {
                            return Err(x);
                        },
                        Ok(()) => {},
                    }
                },
            }
        }
    }

    /// The argument list of a call, at its opening parenthesis.
    pub fn lex_argument_list(&mut self) -> (r: Result<(), LexError>)
        requires
            old(self).wf(),
        ensures
            step_from(*old(self), *final(self)),
            outcome(r, final(self).state(), argument_list(old(self).chars@, old(self).state())),
            r is Ok ==> old(self).pos < final(self).pos
                && old(self).output.len() < final(self).output.len()
                && final(self).depth == old(self).depth,
        decreases remaining(old(self).chars@, old(self).state()), 0nat,
    {
        if self.pos < self.chars.len() && self.chars[self.pos] == '(' {
            self.emit(Token::Punctuation(Punctuation::OpenRoundBracket), self.pos + 1);
            self.lex_arguments()
        } else {
            Err(self.fail(self.pos, Construct::Expression))
        }
    }

    /// Comma-separated expressions up to the closing parenthesis of a call.
    pub fn lex_arguments(&mut self) -> (r: Result<(), LexError>)
        requires
            old(self).wf(),
            old(self).depth > 0,
        ensures
            step_from(*old(self), *final(self)),
            outcome(r, final(self).state(), arguments(old(self).chars@, old(self).state())),
            r is Ok ==> old(self).pos < final(self).pos
                && old(self).output.len() < final(self).output.len()
                && final(self).depth + 1 == old(self).depth,
        decreases remaining(old(self).chars@, old(self).state()), 4nat,
    {
        let ghost s = self.chars@;
        let ghost entry = self.state();
        let d = self.depth;
        loop
            invariant
                self.wf(),
                self.chars@ == s,
                self.chars == old(self).chars,
                self.indents@ == old(self).indents@,
                entry == old(self).state(),
                s == old(self).chars@,
                entry.pos <= self.pos,
                self.depth == d,
                d == entry.depth,
                old(self).output.len() <= self.output.len(),
                d > 0,
                arguments(s, entry) == arguments(s, self.state()),
            decreases self.chars.len() - self.pos,
        {
            self.skip(CharClass::Blank);
            let p = self.pos;
            if p >= self.chars.len() {
                return Err(LexError::UnexpectedEndOfInput(Construct::Expression));
            }
            if self.chars[p] == ')' {
                self.emit(Token::Punctuation(Punctuation::CloseRoundBracket), p + 1);
                return Ok(());
            }
            match self.lex_expression() {
                Err(x) => {
                    return Err(x);
                },
                Ok(()) => {},
            }
            let q = self.run_end(self.pos, CharClass::Blank);
            proof {
                lemma_run_end(s, self.pos as int, CharClass::Blank);
            }
            proof {
                lemma_texts_marks();
            }
            if q < self.chars.len() && self.chars[q] == ',' {
                self.advance_to(q);
                assert(unmarked(s, q as int, q + 1));
                self.emit(Token::Punctuation(Punctuation::Comma), q + 1);
            } else if q < self.chars.len() && self.chars[q] == ')' {
                self.advance_to(q);
                self.emit(Token::Punctuation(Punctuation::CloseRoundBracket), q + 1);
                return Ok(());
            } else {
                return Err(self.fail(q, Construct::Expression));
            }
        }
    }
}

} // verus!
