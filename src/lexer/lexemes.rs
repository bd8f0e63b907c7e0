//! Executable recognisers of single lexemes: keywords, identifiers,
//! punctuation, operators, newlines, strings and numerals.

use vstd::prelude::*;
use crate::lexer::cursor::{step_from, keyword_str, operator_str, punctuation_str, Cursor};
use crate::lexer::grammar::{
    all_digits, any_operator, any_punctuation, at_keyword, digits_value, is_decimal_at, is_digit,
    is_keyword_word, is_mark, keyword_text, lemma_decimal_unmarked, lemma_run_end,
    lemma_text_at_unmarked, lemma_texts_marks, lemma_texts_nonempty, lex_any_operator,
    lex_any_punctuation, lex_identifier, lex_keyword, lex_newline, lex_number, lex_operator,
    lex_punctuation, lex_string, outcome, run_end, text_at, word_operator, CharClass,
};
use crate::lexer::token::{
    Construct, Keyword, LexError, Operator, Punctuation, Span, SpannedToken, Token,
};

verus! {

proof fn lemma_digits_push(t: Seq<char>, c: char)
    ensures
        digits_value(t.push(c)) == digits_value(t) * 10 + (c as int - '0' as int),
{
    assert(t.push(c).drop_last() =~= t);
}

proof fn lemma_digits_prefix(t: Seq<char>, j: int)
    requires
        all_digits(t),
        0 <= j <= t.len(),
    ensures
        0 <= digits_value(t.subrange(0, j)) <= digits_value(t),
    decreases t.len(),
{
    if t.len() > 0 {
        let u = t.drop_last();
        assert(all_digits(u)) by {
            assert forall|i: int| 0 <= i < u.len() implies is_digit(#[trigger] u[i]) by {
                assert(u[i] == t[i]);
            }
        }
        assert(is_digit(t[t.len() - 1]));
        if j == t.len() {
            assert(t.subrange(0, j) =~= t);
            lemma_digits_prefix(u, u.len() as int);
            assert(u.subrange(0, u.len() as int) =~= u);
        } else {
            lemma_digits_prefix(u, j);
            assert(u.subrange(0, j) =~= t.subrange(0, j));
            lemma_digits_prefix(u, u.len() as int);
            assert(u.subrange(0, u.len() as int) =~= u);
        }
    } else {
        assert(t.subrange(0, j) =~= t);
    }
}

impl Cursor {
    /// Whether keyword `k` follows, after blanks.
    pub fn at_keyword(&self, k: Keyword) -> (r: bool)
        requires
            self.wf(),
        ensures
            r == at_keyword(self.chars@, self.pos as int, k),
    {
        let p = self.run_end(self.pos, CharClass::Blank);
        self.text_at(p, keyword_str(k))
    }

    /// Requires keyword `k` after blanks; on failure nothing is read.
    pub fn lex_specific_keyword(&mut self, k: Keyword) -> (r: Result<(), LexError>)
        requires
            old(self).wf(),
        ensures
            step_from(*old(self), *final(self)),
            outcome(r, final(self).state(), lex_keyword(old(self).chars@, old(self).state(), k)),
            r is Ok ==> old(self).pos < final(self).pos
                && old(self).output.len() < final(self).output.len(),
            r is Err ==> final(self).state() == old(self).state(),
    {
        let p = self.run_end(self.pos, CharClass::Blank);
        let lit = keyword_str(k);
        if self.text_at(p, lit) {
            proof {
                lemma_run_end(self.chars@, self.pos as int, CharClass::Blank);
                lemma_texts_nonempty();
                lemma_texts_marks();
                lemma_text_at_unmarked(self.chars@, p as int, lit@);
            }
            self.advance_to(p);
            let n = lit.unicode_len();
            self.emit(Token::Keyword(k), p + n);
            Ok(())
        } else {
            Err(self.unexpected(p))
        }
    }

    /// Requires an identifier right at the position reached; on failure
    /// nothing is read.
    pub fn lex_identifier(&mut self, ctx: Construct) -> (r: Result<(), LexError>)
        requires
            old(self).wf(),
        ensures
            step_from(*old(self), *final(self)),
            outcome(
                r,
                final(self).state(),
                lex_identifier(old(self).chars@, old(self).state(), ctx),
            ),
            r is Ok ==> old(self).pos < final(self).pos
                && old(self).output.len() < final(self).output.len(),
            r is Err ==> final(self).state() == old(self).state(),
    {
        let p = self.pos;
        let e = self.run_end(p, CharClass::Word);
        proof {
            lemma_run_end(self.chars@, p as int, CharClass::Word);
        }
        if p < e {
            let w = self.text(p, e);
            self.emit(Token::Ident(w), e);
            Ok(())
        } else {
            Err(self.fail(p, ctx))
        }
    }

    /// Requires punctuation `pu` right at the position reached; on failure
    /// nothing is read. A lone quote leaves the quote tokens unpaired.
    pub fn lex_specific_punctuation(&mut self, pu: Punctuation) -> (r: Result<(), LexError>)
        requires
            old(self).wf(),
        ensures
            final(self).counted_wf(),
            final(self).chars == old(self).chars,
            final(self).indents@ == old(self).indents@,
            pu != Punctuation::Quote ==> step_from(*old(self), *final(self)),
            outcome(
                r,
                final(self).state(),
                lex_punctuation(old(self).chars@, old(self).state(), pu),
            ),
            r is Ok ==> old(self).pos < final(self).pos
                && old(self).output.len() < final(self).output.len(),
            r is Err ==> final(self).state() == old(self).state(),
    {
        let lit = punctuation_str(pu);
        if self.text_at(self.pos, lit) && !(pu == Punctuation::CloseRoundBracket && self.depth
            == 0) {
            proof {
                lemma_texts_nonempty();
                lemma_texts_marks();
                if pu != Punctuation::OpenRoundBracket && pu != Punctuation::CloseRoundBracket
                    && pu != Punctuation::Quote {
                    lemma_text_at_unmarked(self.chars@, self.pos as int, lit@);
                } else {
                    assert(self.chars@.subrange(self.pos as int, self.pos + 1)[0]
                        == self.chars@[self.pos as int]);
                }
            }
            match pu {
                Punctuation::Quote => {
                    self.emit_lone_quote();
                },
                _ => {
                    let n = lit.unicode_len();
                    self.emit(Token::Punctuation(pu), self.pos + n);
                },
            }
            Ok(())
        } else {
            Err(self.unexpected(self.pos))
        }
    }

    /// Requires operator `o` right at the position reached; on failure
    /// nothing is read.
    pub fn lex_specific_operator(&mut self, o: Operator) -> (r: Result<(), LexError>)
        requires
            old(self).wf(),
        ensures
            step_from(*old(self), *final(self)),
            outcome(r, final(self).state(), lex_operator(old(self).chars@, old(self).state(), o)),
            r is Ok ==> old(self).pos < final(self).pos
                && old(self).output.len() < final(self).output.len(),
            r is Err ==> final(self).state() == old(self).state(),
    {
        let lit = operator_str(o);
        if self.text_at(self.pos, lit) {
            proof {
                lemma_texts_nonempty();
                lemma_texts_marks();
                lemma_text_at_unmarked(self.chars@, self.pos as int, lit@);
            }
            let n = lit.unicode_len();
            self.emit(Token::Operator(o), self.pos + n);
            Ok(())
        } else {
            Err(self.unexpected(self.pos))
        }
    }

    /// Requires the end of a line after blanks; on failure nothing is read.
    pub fn lex_newline(&mut self, ctx: Construct) -> (r: Result<(), LexError>)
        requires
            old(self).wf(),
        ensures
            step_from(*old(self), *final(self)),
            outcome(r, final(self).state(), lex_newline(old(self).chars@, old(self).state(), ctx)),
            r is Ok ==> old(self).pos < final(self).pos,
            r is Err ==> final(self).state() == old(self).state(),
    {
        let p = self.run_end(self.pos, CharClass::Blank);
        proof {
            lemma_run_end(self.chars@, self.pos as int, CharClass::Blank);
        }
        if p < self.chars.len() && self.chars[p] == '\n' {
            self.advance_to(p + 1);
            Ok(())
        } else {
            Err(self.fail(p, ctx))
        }
    }

    pub fn lex_string(&mut self) -> (r: Result<(), LexError>)
        requires
            old(self).wf(),
            old(self).pos < old(self).chars.len(),
            old(self).chars@[old(self).pos as int] == '"',
        ensures
            step_from(*old(self), *final(self)),
            outcome(r, final(self).state(), lex_string(old(self).chars@, old(self).state())),
            r is Ok ==> old(self).pos < final(self).pos
                && old(self).output.len() < final(self).output.len(),
    {
        let p = self.pos;
        let e = self.run_end(p + 1, CharClass::Text);
        if e >= self.chars.len() {
            return Err(LexError::UnexpectedEndOfInput(Construct::StringLiteral));
        }
        proof {
            lemma_run_end(self.chars@, p + 1, CharClass::Text);
        }
        let body = self.text(p + 1, e);
        self.emit_quoted(body, e);
        Ok(())
    }

    /// The value of the characters from `p` up to `e`, if they are all digits
    /// and their value fits in an `i64`.
    fn integer_value(&self, p: usize, e: usize) -> (r: Option<i64>)
        requires
            p <= e <= self.chars.len(),
        ensures
            ({
                let t = self.chars@.subrange(p as int, e as int);
                match r {
                    Some(v) => all_digits(t) && digits_value(t) <= i64::MAX && v == digits_value(t),
                    None => !(all_digits(t) && digits_value(t) <= i64::MAX),
                }
            }),
    {
        let ghost t = self.chars@.subrange(p as int, e as int);
        let mut acc: i64 = 0;
        let mut i = p;
        while i < e
            invariant
                p <= i <= e <= self.chars.len(),
                t == self.chars@.subrange(p as int, e as int),
                all_digits(t.subrange(0, i - p)),
                acc == digits_value(t.subrange(0, i - p)),
                acc >= 0,
            decreases e - i,
        {
            let c = self.chars[i];
            if !('0' <= c && c <= '9') {
                assert(t[i - p] == c);
                return None;
            }
            let d = (c as u32 - '0' as u32) as i64;
            proof {
                assert(t.subrange(0, i - p + 1) =~= t.subrange(0, i - p).push(c));
                lemma_digits_push(t.subrange(0, i - p), c);
            }
            if acc > (i64::MAX - d) / 10 {
                proof {
                    if all_digits(t) {
                        lemma_digits_prefix(t, i - p + 1);
                    }
                }
                return None;
            }
            acc = acc * 10 + d;
            i = i + 1;
            proof {
                assert forall|j: int| 0 <= j < i - p implies is_digit(
                    #[trigger] t.subrange(0, i - p)[j],
                ) by {
                    if j < i - p - 1 {
                        assert(t.subrange(0, i - p)[j] == t.subrange(0, i - p - 1)[j]);
                    }
                }
            }
        }
        assert(t.subrange(0, e - p) =~= t);
        Some(acc)
    }

    /// Whether the characters from `p` up to `e` form a decimal literal.
    fn is_decimal(&self, p: usize, e: usize) -> (r: bool)
        requires
            p <= e <= self.chars.len(),
        ensures
            r == is_decimal_at(self.chars@, p as int, e as int),
    {
        let a = self.run_end(p, CharClass::Digit);
        if !(p < a && a < e && self.chars[a] == '.') {
            return false;
        }
        let b = self.run_end(a + 1, CharClass::Digit);
        if b == e {
            return true;
        }
        if !(b < e && (self.chars[b] == 'e' || self.chars[b] == 'E')) {
            return false;
        }
        let c = if b + 1 < e && (self.chars[b + 1] == '+' || self.chars[b + 1] == '-') {
            b + 2
        } else {
            b + 1
        };
        c < e && self.run_end(c, CharClass::Digit) == e
    }

    /// A numeral at the position reached; on failure nothing is read.
    pub fn lex_number(&mut self) -> (r: Result<(), LexError>)
        requires
            old(self).wf(),
        ensures
            step_from(*old(self), *final(self)),
            outcome(r, final(self).state(), lex_number(old(self).chars@, old(self).state())),
            r is Ok ==> old(self).pos < final(self).pos
                && old(self).output.len() < final(self).output.len(),
            r is Err ==> final(self).state() == old(self).state(),
    {
        let p = self.pos;
        if !(p < self.chars.len() && '0' <= self.chars[p] && self.chars[p] <= '9') {
            return Err(self.unexpected(p));
        }
        let e = self.run_end(p, CharClass::Lexeme);
        proof {
            lemma_run_end(self.chars@, p as int, CharClass::Lexeme);
        }
        match self.integer_value(p, e) {
            Some(v) => {
                proof {
                    let t = self.chars@.subrange(p as int, e as int);
                    assert forall|i: int| p <= i < e implies !is_mark(
                        #[trigger] self.chars@[i],
                    ) by {
                        assert(t[i - p] == self.chars@[i]);
                    }
                }
                self.emit(Token::Integer(v), e);
                Ok(())
            },
            None => {
                let t = self.text(p, e);
                if self.is_decimal(p, e) {
                    proof {
                        lemma_decimal_unmarked(self.chars@, p as int, e as int);
                    }
                    self.emit(Token::Float(t), e);
                    Ok(())
                } else {
                    let start = self.loc;
                    let stop = self.loc_of(e);
                    let spanned = SpannedToken::new(Span::new(start, stop), t);
                    Err(LexError::InvalidNumberLiteral(spanned))
                }
            },
        }
    }

    /// The punctuation at `p`.
    pub fn any_punctuation(&self, p: usize) -> (r: Option<Punctuation>)
        requires
            p <= self.chars.len(),
        ensures
            r == any_punctuation(self.chars@, p as int),
    {
        if self.text_at(p, punctuation_str(Punctuation::OpenRoundBracket)) {
            Some(Punctuation::OpenRoundBracket)
        } else if self.text_at(p, punctuation_str(Punctuation::CloseRoundBracket)) {
            Some(Punctuation::CloseRoundBracket)
        } else if self.text_at(p, punctuation_str(Punctuation::ByRef)) {
            Some(Punctuation::ByRef)
        } else if self.text_at(p, punctuation_str(Punctuation::ByVal)) {
            Some(Punctuation::ByVal)
        } else if self.text_at(p, punctuation_str(Punctuation::Colon)) {
            Some(Punctuation::Colon)
        } else if self.text_at(p, punctuation_str(Punctuation::Comma)) {
            Some(Punctuation::Comma)
        } else if self.text_at(p, punctuation_str(Punctuation::Quote)) {
            Some(Punctuation::Quote)
        } else {
            None
        }
    }

    /// Any punctuation right at the position reached; on failure nothing is
    /// read.
    pub fn lex_any_punctuation(&mut self) -> (r: Result<(), LexError>)
        requires
            old(self).wf(),
        ensures
            final(self).counted_wf(),
            final(self).chars == old(self).chars,
            final(self).indents@ == old(self).indents@,
            any_punctuation(old(self).chars@, old(self).pos as int) != Some(Punctuation::Quote)
                ==> step_from(*old(self), *final(self)),
            outcome(
                r,
                final(self).state(),
                lex_any_punctuation(old(self).chars@, old(self).state()),
            ),
            r is Ok ==> old(self).pos < final(self).pos
                && old(self).output.len() < final(self).output.len(),
            r is Err ==> final(self).state() == old(self).state(),
    {
        match self.any_punctuation(self.pos) {
            Some(pu) => self.lex_specific_punctuation(pu),
            None => Err(self.unexpected(self.pos)),
        }
    }

    /// The operator at `p`.
    pub fn any_operator(&self, p: usize) -> (r: Option<Operator>)
        requires
            p <= self.chars.len(),
        ensures
            r == any_operator(self.chars@, p as int),
    {
        if self.text_at(p, operator_str(Operator::Comparison)) {
            Some(Operator::Comparison)
        } else if self.text_at(p, operator_str(Operator::NotEquals)) {
            Some(Operator::NotEquals)
        } else if self.text_at(p, operator_str(Operator::Equals)) {
            Some(Operator::Equals)
        } else if self.text_at(p, operator_str(Operator::Times)) {
            Some(Operator::Times)
        } else if self.text_at(p, operator_str(Operator::Divide)) {
            Some(Operator::Divide)
        } else if self.text_at(p, operator_str(Operator::Increment)) {
            Some(Operator::Increment)
        } else if self.text_at(p, operator_str(Operator::Plus)) {
            Some(Operator::Plus)
        } else if self.text_at(p, operator_str(Operator::Minus)) {
            Some(Operator::Minus)
        } else if self.text_at(p, operator_str(Operator::And)) {
            Some(Operator::And)
        } else if self.text_at(p, operator_str(Operator::Or)) {
            Some(Operator::Or)
        } else if self.text_at(p, operator_str(Operator::Not)) {
            Some(Operator::Not)
        } else {
            None
        }
    }

    /// Any operator right at the position reached; on failure nothing is read.
    pub fn lex_any_operator(&mut self) -> (r: Result<(), LexError>)
        requires
            old(self).wf(),
        ensures
            step_from(*old(self), *final(self)),
            outcome(r, final(self).state(), lex_any_operator(old(self).chars@, old(self).state())),
            r is Ok ==> old(self).pos < final(self).pos
                && old(self).output.len() < final(self).output.len(),
            r is Err ==> final(self).state() == old(self).state(),
    {
        match self.any_operator(self.pos) {
            Some(o) => self.lex_specific_operator(o),
            None => Err(self.unexpected(self.pos)),
        }
    }

    /// Whether the characters from `p` up to `e` spell `lit`.
    pub fn word_is(&self, p: usize, e: usize, lit: &str) -> (r: bool)
        requires
            p <= e <= self.chars.len(),
        ensures
            r == (self.chars@.subrange(p as int, e as int) == lit@),
    {
        let n = lit.unicode_len();
        if e - p != n {
            return false;
        }
        self.text_at(p, lit)
    }

    /// The operator that the word from `p` up to `e` spells, if any.
    pub fn word_operator(&self, p: usize, e: usize) -> (r: Option<Operator>)
        requires
            p <= e <= self.chars.len(),
        ensures
            r == word_operator(self.chars@.subrange(p as int, e as int)),
    {
        if self.word_is(p, e, operator_str(Operator::And)) {
            Some(Operator::And)
        } else if self.word_is(p, e, operator_str(Operator::Or)) {
            Some(Operator::Or)
        } else if self.word_is(p, e, operator_str(Operator::Not)) {
            Some(Operator::Not)
        } else {
            None
        }
    }

    /// Whether the word from `p` up to `e` is a keyword.
    pub fn is_keyword_word(&self, p: usize, e: usize) -> (r: bool)
        requires
            p <= e <= self.chars.len(),
        ensures
            r == is_keyword_word(self.chars@.subrange(p as int, e as int)),
    {
        let ghost w = self.chars@.subrange(p as int, e as int);
        let all = [
            Keyword::Function,
            Keyword::EndFunction,
            Keyword::If,
            Keyword::Then,
            Keyword::ElseIf,
            Keyword::Else,
            Keyword::EndIf,
            Keyword::Switch,
            Keyword::Case,
            Keyword::Default,
            Keyword::EndSwitch,
            Keyword::While,
            Keyword::EndWhile,
            Keyword::Do,
            Keyword::Until,
            Keyword::For,
            Keyword::To,
            Keyword::Next,
            Keyword::Return,
        ];
        let mut i: usize = 0;
        while i < 19
            invariant
                0 <= i <= 19,
                p <= e <= self.chars.len(),
                all@.len() == 19,
                w == self.chars@.subrange(p as int, e as int),
                forall|j: int| 0 <= j < i ==> w != keyword_text(#[trigger] all@[j]),
            decreases 19 - i,
        {
            if self.word_is(p, e, keyword_str(all[i])) {
                return true;
            }
            i = i + 1;
        }
        assert forall|k: Keyword| w != #[trigger] keyword_text(k) by {
            match k {
                Keyword::Function => assert(all@[0] == k),
                Keyword::EndFunction => assert(all@[1] == k),
                Keyword::If => assert(all@[2] == k),
                Keyword::Then => assert(all@[3] == k),
                Keyword::ElseIf => assert(all@[4] == k),
                Keyword::Else => assert(all@[5] == k),
                Keyword::EndIf => assert(all@[6] == k),
                Keyword::Switch => assert(all@[7] == k),
                Keyword::Case => assert(all@[8] == k),
                Keyword::Default => assert(all@[9] == k),
                Keyword::EndSwitch => assert(all@[10] == k),
                Keyword::While => assert(all@[11] == k),
                Keyword::EndWhile => assert(all@[12] == k),
                Keyword::Do => assert(all@[13] == k),
                Keyword::Until => assert(all@[14] == k),
                Keyword::For => assert(all@[15] == k),
                Keyword::To => assert(all@[16] == k),
                Keyword::Next => assert(all@[17] == k),
                Keyword::Return => assert(all@[18] == k),
            }
        }
        false
    }
}

} // verus!
