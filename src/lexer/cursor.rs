//! The scanner's cursor: the input as characters, the position reached in it,
//! and the output and bookkeeping of the scan.

use vstd::prelude::*;
use crate::lexer::grammar::{
    accounted, advance, char_count, fail_at, in_class, is_blank, keyword_text, lemma_run_end,
    lemma_texts_marks, loc_at, marks_of, operator_text, paren_balance, punctuation_text, run_end,
    text_at, token_marks, unexpected_at, unmarked, well_nested, CharClass, ScanState,
};
use crate::lexer::token::{
    tokens_view, Construct, Keyword, LexError, Loc, Operator, Punctuation, Span, SpannedToken,
    SpecToken, Token,
};

verus! {

/// Relies on `String::push`: the character is appended.
#[verifier::external_body]
fn push_char(s: &mut String, c: char)
    ensures
        final(s)@ == old(s)@.push(c),
{
    s.push(c)
}

proof fn lemma_push_view(v: Seq<Token>, t: Token)
    ensures
        tokens_view(v.push(t)) == tokens_view(v).push(t@),
{
    assert(tokens_view(v.push(t)) =~= tokens_view(v).push(t@));
}

proof fn lemma_push_nested(ts: Seq<SpecToken>, t: SpecToken)
    requires
        well_nested(ts),
        paren_balance(ts.push(t)) >= 0,
    ensures
        well_nested(ts.push(t)),
{
    let ts2 = ts.push(t);
    assert(ts2.drop_last() =~= ts);
    assert forall|i: int| 0 <= i <= ts2.len() implies paren_balance(#[trigger] ts2.take(i)) >= 0
        by {
        if i <= ts.len() {
            assert(ts2.take(i) =~= ts.take(i));
        } else {
            assert(ts2.take(i) =~= ts2);
        }
    }
}

pub fn keyword_str(k: Keyword) -> (r: &'static str)
    ensures
        r@ == keyword_text(k),
{
    match k {
        Keyword::Function => "function",
        Keyword::EndFunction => "endfunction",
        Keyword::If => "if",
        Keyword::Then => "then",
        Keyword::ElseIf => "elseif",
        Keyword::Else => "else",
        Keyword::EndIf => "endif",
        Keyword::Switch => "switch",
        Keyword::Case => "case",
        Keyword::Default => "default",
        Keyword::EndSwitch => "endswitch",
        Keyword::While => "while",
        Keyword::EndWhile => "endwhile",
        Keyword::Do => "do",
        Keyword::Until => "until",
        Keyword::For => "for",
        Keyword::To => "to",
        Keyword::Next => "next",
        Keyword::Return => "return",
    }
}

pub fn punctuation_str(p: Punctuation) -> (r: &'static str)
    ensures
        r@ == punctuation_text(p),
{
    match p {
        Punctuation::OpenRoundBracket => "(",
        Punctuation::CloseRoundBracket => ")",
        Punctuation::ByRef => ":byRef",
        Punctuation::ByVal => ":byVal",
        Punctuation::Colon => ":",
        Punctuation::Comma => ",",
        Punctuation::Quote => "\"",
    }
}

pub fn operator_str(o: Operator) -> (r: &'static str)
    ensures
        r@ == operator_text(o),
{
    match o {
        Operator::Equals => "=",
        Operator::Times => "*",
        Operator::Plus => "+",
        Operator::Minus => "-",
        Operator::Divide => "/",
        Operator::Comparison => "==",
        Operator::And => "AND",
        Operator::Or => "OR",
        Operator::Not => "NOT",
        Operator::NotEquals => "!=",
        Operator::Increment => "+=",
    }
}

fn blank(c: char) -> (r: bool)
    ensures
        r == is_blank(c),
{
    ('\t' <= c && c <= '\r' && c != '\n') || c == ' ' || c == '\u{85}' || c == '\u{A0}' || c
        == '\u{1680}' || ('\u{2000}' <= c && c <= '\u{200A}') || c == '\u{2028}' || c
        == '\u{2029}' || c == '\u{202F}' || c == '\u{205F}' || c == '\u{3000}'
}

pub fn char_in_class(c: char, k: CharClass) -> (r: bool)
    ensures
        r == in_class(c, k),
{
    match k {
        CharClass::Blank => blank(c),
        CharClass::Space => blank(c) || c == '\n',
        CharClass::Word => ('a' <= c && c <= 'z') || ('A' <= c && c <= 'Z') || ('0' <= c && c
            <= '9'),
        CharClass::Lexeme => c != ' ' && c != '\n',
        CharClass::Text => c != '"',
        CharClass::Digit => '0' <= c && c <= '9',
    }
}

fn sat_inc(a: u32, b: u32) -> (r: u32)
    ensures
        r == crate::lexer::grammar::sat_add(a, b),
{
    if a > u32::MAX - b {
        u32::MAX
    } else {
        a + b
    }
}

/// A scanner over one source text.
pub struct Cursor {
    pub chars: Vec<char>,
    pub pos: usize,
    pub loc: Loc,
    pub output: Vec<Token>,
    pub depth: usize,
    pub indents: Vec<u32>,
}

/// `b` is a well-formed later state of the scan in `a`, in the same block.
pub open spec fn step_from(a: Cursor, b: Cursor) -> bool {
    &&& b.wf()
    &&& b.chars == a.chars
    &&& b.indents@ == a.indents@
    &&& a.pos <= b.pos
    &&& a.output.len() <= b.output.len()
}

/// `b` continues the scan in `a` after a construct that was read whole:
/// further into the input, with the same parentheses and blocks open.
pub open spec fn completed(a: Cursor, b: Cursor) -> bool {
    &&& a.pos < b.pos
    &&& a.output.len() < b.output.len()
    &&& b.depth == a.depth
    &&& b.indents@ == a.indents@
}

impl Cursor {
    /// The position, location and parentheses agree with the input and the output.
    pub open spec fn base_wf(&self) -> bool {
        &&& self.pos <= self.chars.len()
        &&& self.loc == loc_at(self.chars@, self.pos as int)
        &&& self.depth <= self.pos
        &&& self.depth == paren_balance(tokens_view(self.output@))
        &&& well_nested(tokens_view(self.output@))
    }

    /// Besides, each double quote and parenthesis read is accounted for by
    /// the tokens.
    pub open spec fn counted_wf(&self) -> bool {
        &&& self.base_wf()
        &&& accounted(self.chars@.take(self.pos as int), tokens_view(self.output@))
    }

    /// Between lexemes: besides, the quote tokens come in pairs.
    pub open spec fn wf(&self) -> bool {
        &&& self.counted_wf()
        &&& token_marks(tokens_view(self.output@), '"') % 2 == 0
    }

    pub open spec fn state(&self) -> ScanState {
        ScanState {
            pos: self.pos as int,
            depth: self.depth as nat,
            indents: self.indents@,
            tokens: tokens_view(self.output@),
        }
    }

    pub fn new(chars: Vec<char>) -> (r: Cursor)
        ensures
            r.wf(),
            r.chars == chars,
            r.state() == (ScanState { pos: 0, depth: 0, indents: seq![], tokens: seq![] }),
    {
        let r = Cursor {
            chars,
            pos: 0,
            loc: Loc { line: 0, col: 0 },
            output: Vec::new(),
            depth: 0,
            indents: Vec::new(),
        };
        assert(tokens_view(r.output@) =~= seq![]);
        assert(r.chars@.take(0) =~= seq![]);
        proof {
            assert forall|i: int| 0 <= i <= 0 implies paren_balance(
                #[trigger] tokens_view(r.output@).take(i),
            ) >= 0 by {
                assert(tokens_view(r.output@).take(i) =~= seq![]);
            }
        }
        r
    }

    /// Reads one character and returns it; `None`, reading nothing, at the
    /// end of the input.
    pub fn eat(&mut self) -> (r: Option<char>)
        requires
            old(self).base_wf(),
        ensures
            final(self).base_wf(),
            final(self).chars == old(self).chars,
            final(self).output == old(self).output,
            old(self).pos >= old(self).chars.len() ==> r is None
                && final(self).state() == old(self).state() && final(self).loc == old(self).loc,
            old(self).pos < old(self).chars.len() ==> r == Some(
                old(self).chars@[old(self).pos as int],
            ) && final(self).state() == old(self).state().at(old(self).pos + 1),
            old(self).pos < old(self).chars.len() ==> forall|c: char|
                #[trigger] char_count(final(self).chars@.take(final(self).pos as int), c)
                    == char_count(old(self).chars@.take(old(self).pos as int), c) + if old(
                    self,
                ).chars@[old(self).pos as int] == c {
                    1nat
                } else {
                    0nat
                },
    {
        if self.pos >= self.chars.len() {
            return None;
        }
        let c = self.chars[self.pos];
        let l = self.loc;
        if c == '\n' {
            self.loc = Loc { line: sat_inc(l.line, 1), col: 0 };
        } else if c == '\t' {
            self.loc = Loc { line: l.line, col: sat_inc(l.col, 4) };
        } else {
            self.loc = Loc { line: l.line, col: sat_inc(l.col, 1) };
        }
        self.pos = self.pos + 1;
        assert(self.loc == advance(l, c));
        assert(self.chars@.take(self.pos as int).drop_last() =~= self.chars@.take(self.pos - 1));
        Some(c)
    }

    /// Reads up to position `end`.
    pub fn advance_to(&mut self, end: usize)
        requires
            old(self).wf(),
            old(self).pos <= end <= old(self).chars.len(),
            unmarked(old(self).chars@, old(self).pos as int, end as int),
        ensures
            final(self).wf(),
            final(self).state() == old(self).state().at(end as int),
            final(self).chars == old(self).chars,
            final(self).output == old(self).output,
    {
        while self.pos < end
            invariant
                self.wf(),
                old(self).pos <= self.pos <= end <= self.chars.len(),
                unmarked(self.chars@, old(self).pos as int, end as int),
                self.state() == old(self).state().at(self.pos as int),
                self.chars == old(self).chars,
                self.output == old(self).output,
            decreases end - self.pos,
        {
            self.eat();
        }
    }

    /// The end of the run of class `k` from `from`.
    pub fn run_end(&self, from: usize, k: CharClass) -> (e: usize)
        requires
            from <= self.chars.len(),
        ensures
            e == run_end(self.chars@, from as int, k),
            from <= e <= self.chars.len(),
    {
        let mut i = from;
        while i < self.chars.len() && char_in_class(self.chars[i], k)
            invariant
                from <= i <= self.chars.len(),
                run_end(self.chars@, from as int, k) == run_end(self.chars@, i as int, k),
            decreases self.chars.len() - i,
        {
            i = i + 1;
        }
        i
    }

    /// Reads the run of class `k` that starts at the position reached.
    pub fn skip(&mut self, k: CharClass)
        requires
            old(self).wf(),
            k == CharClass::Blank || k == CharClass::Space,
        ensures
            final(self).wf(),
            final(self).state() == old(self).state().at(
                run_end(old(self).chars@, old(self).pos as int, k),
            ),
            final(self).chars == old(self).chars,
            final(self).output == old(self).output,
            old(self).pos <= final(self).pos,
    {
        let e = self.run_end(self.pos, k);
        proof {
            lemma_run_end(self.chars@, self.pos as int, k);
        }
        self.advance_to(e);
    }

    /// Whether the input from `p` begins with `lit`.
    pub fn text_at(&self, p: usize, lit: &str) -> (r: bool)
        requires
            p <= self.chars.len(),
        ensures
            r == text_at(self.chars@, p as int, lit@),
    {
        let n = lit.unicode_len();
        if n > self.chars.len() - p {
            return false;
        }
        let mut i: usize = 0;
        while i < n
            invariant
                p + n <= self.chars.len(),
                n == lit@.len(),
                i <= n,
                forall|j: int| 0 <= j < i ==> self.chars@[p + j] == lit@[j],
            decreases n - i,
        {
            if self.chars[p + i] != lit.get_char(i) {
                assert(self.chars@.subrange(p as int, p + n)[i as int] != lit@[i as int]);
                return false;
            }
            i = i + 1;
        }
        assert(self.chars@.subrange(p as int, p + n) =~= lit@);
        true
    }

    /// The characters from `p` up to `e` as a string.
    pub fn text(&self, p: usize, e: usize) -> (r: String)
        requires
            p <= e <= self.chars.len(),
        ensures
            r@ == self.chars@.subrange(p as int, e as int),
    {
        let mut r = String::new();
        let mut i = p;
        while i < e
            invariant
                p <= i <= e <= self.chars.len(),
                r@ == self.chars@.subrange(p as int, i as int),
            decreases e - i,
        {
            push_char(&mut r, self.chars[i]);
            i = i + 1;
            assert(r@ =~= self.chars@.subrange(p as int, i as int));
        }
        r
    }

    /// The error for a required lexeme missing at `p`.
    pub fn unexpected(&self, p: usize) -> (e: LexError)
        requires
            self.base_wf(),
            self.pos <= p <= self.chars.len(),
        ensures
            e@ == unexpected_at(self.chars@, p as int),
    {
        let l = self.loc_of(p);
        let end = self.run_end(p, CharClass::Lexeme);
        LexError::UnexpectedToken(SpannedToken::new(Span::new(l, l), self.text(p, end)))
    }

    /// The error for a construct missing at `p`.
    pub fn fail(&self, p: usize, ctx: Construct) -> (e: LexError)
        requires
            self.base_wf(),
            self.pos <= p <= self.chars.len(),
        ensures
            e@ == fail_at(self.chars@, p as int, ctx),
    {
        if p >= self.chars.len() {
            LexError::UnexpectedEndOfInput(ctx)
        } else {
            self.unexpected(p)
        }
    }

    /// The location of position `p`, which must not lie behind the position reached.
    pub fn loc_of(&self, p: usize) -> (l: Loc)
        requires
            self.base_wf(),
            self.pos <= p <= self.chars.len(),
        ensures
            l == loc_at(self.chars@, p as int),
    {
        let mut l = self.loc;
        let mut i = self.pos;
        while i < p
            invariant
                self.pos <= i <= p <= self.chars.len(),
                l == loc_at(self.chars@, i as int),
            decreases p - i,
        {
            let c = self.chars[i];
            let old_l = l;
            if c == '\n' {
                l = Loc { line: sat_inc(old_l.line, 1), col: 0 };
            } else if c == '\t' {
                l = Loc { line: old_l.line, col: sat_inc(old_l.col, 4) };
            } else {
                l = Loc { line: old_l.line, col: sat_inc(old_l.col, 1) };
            }
            assert(l == advance(old_l, c));
            i = i + 1;
        }
        l
    }

    /// Produces `t`, having read the input up to `end`.
    pub fn emit(&mut self, t: Token, end: usize)
        requires
            old(self).wf(),
            old(self).pos <= end <= old(self).chars.len(),
            t@ == SpecToken::Punctuation(Punctuation::OpenRoundBracket) ==> old(self).pos < end,
            t@ == SpecToken::Punctuation(Punctuation::CloseRoundBracket) ==> old(self).depth > 0,
            t@ == SpecToken::Punctuation(Punctuation::OpenRoundBracket) ==> end == old(self).pos
                + 1 && old(self).chars@[old(self).pos as int] == '(',
            t@ == SpecToken::Punctuation(Punctuation::CloseRoundBracket) ==> end == old(self).pos
                + 1 && old(self).chars@[old(self).pos as int] == ')',
            t@ != SpecToken::Punctuation(Punctuation::OpenRoundBracket) && t@
                != SpecToken::Punctuation(Punctuation::CloseRoundBracket) ==> unmarked(
                old(self).chars@,
                old(self).pos as int,
                end as int,
            ) && marks_of(t@, '"') == 0 && marks_of(t@, '(') == 0 && marks_of(t@, ')') == 0,
        ensures
            final(self).wf(),
            final(self).state() == old(self).state().emit(t@, end as int),
            final(self).chars == old(self).chars,
    {
        let ghost ts = tokens_view(self.output@);
        proof {
            lemma_texts_marks();
        }
        match &t {
            Token::Punctuation(Punctuation::OpenRoundBracket) => {
                self.eat();
                self.depth = self.depth + 1;
            },
            Token::Punctuation(Punctuation::CloseRoundBracket) => {
                self.eat();
                self.depth = self.depth - 1;
            },
            _ => {
                self.advance_to(end);
            },
        }
        self.output.push(t);
        proof {
            lemma_push_view(old(self).output@, t);
            assert(ts.push(t@).drop_last() =~= ts);
            assert(tokens_view(self.output@) == ts.push(t@));
            lemma_push_nested(ts, t@);
        }
    }

    /// Produces the tokens of a string literal whose quotes stand at the
    /// position reached and at `e`: a quote, the text between, a quote.
    pub fn emit_quoted(&mut self, body: String, e: usize)
        requires
            old(self).wf(),
            old(self).pos < e < old(self).chars.len(),
            old(self).chars@[old(self).pos as int] == '"',
            old(self).chars@[e as int] == '"',
            body@ == old(self).chars@.subrange(old(self).pos + 1, e as int),
            forall|i: int| old(self).pos + 1 <= i < e ==> old(self).chars@[i] != '"',
        ensures
            final(self).wf(),
            final(self).chars == old(self).chars,
            final(self).state() == old(self).state().emit(
                SpecToken::Punctuation(Punctuation::Quote),
                old(self).pos + 1,
            ).emit(SpecToken::Str(body@), e as int).emit(
                SpecToken::Punctuation(Punctuation::Quote),
                e + 1,
            ),
    {
        let ghost s = self.chars@;
        let ghost p = self.pos as int;
        let ghost q0 = char_count(s.take(p), '"');
        let ghost o0 = char_count(s.take(p), '(');
        let ghost c0 = char_count(s.take(p), ')');
        let ghost ts = tokens_view(self.output@);
        self.eat();
        assert(s.subrange(p + 1, p + 1) =~= seq![]);
        while self.pos < e
            invariant
                self.base_wf(),
                p < self.pos <= e < self.chars.len(),
                p == old(self).pos,
                s == self.chars@,
                self.chars == old(self).chars,
                self.output == old(self).output,
                self.state() == old(self).state().at(self.pos as int),
                forall|i: int| p + 1 <= i < e ==> s[i] != '"',
                char_count(s.take(self.pos as int), '"') == q0 + 1,
                char_count(s.take(self.pos as int), '(') == o0 + char_count(
                    s.subrange(p + 1, self.pos as int),
                    '(',
                ),
                char_count(s.take(self.pos as int), ')') == c0 + char_count(
                    s.subrange(p + 1, self.pos as int),
                    ')',
                ),
            decreases e - self.pos,
        {
            let ghost i = self.pos as int;
            assert(s.subrange(p + 1, i + 1).drop_last() =~= s.subrange(p + 1, i));
            self.eat();
        }
        self.eat();
        proof {
            crate::lexer::grammar::lemma_count_absent(body@, '"');
        }
        let open = Token::Punctuation(Punctuation::Quote);
        let close = Token::Punctuation(Punctuation::Quote);
        let text = Token::String(body);
        proof {
            lemma_push_view(self.output@, open);
            lemma_push_view(self.output@.push(open), text);
            lemma_push_view(self.output@.push(open).push(text), close);
            let ts1 = ts.push(open@);
            let ts2 = ts1.push(text@);
            let ts3 = ts2.push(close@);
            assert(ts1.drop_last() =~= ts);
            assert(ts2.drop_last() =~= ts1);
            assert(ts3.drop_last() =~= ts2);
            assert(paren_balance(ts1) == paren_balance(ts));
            assert(paren_balance(ts2) == paren_balance(ts1));
            assert(paren_balance(ts3) == paren_balance(ts2));
            lemma_texts_marks();
            assert(token_marks(ts1, '"') == token_marks(ts, '"') + 1);
            assert(token_marks(ts2, '"') == token_marks(ts1, '"'));
            assert(token_marks(ts3, '"') == token_marks(ts2, '"') + 1);
            assert(token_marks(ts1, '(') == token_marks(ts, '('));
            assert(token_marks(ts2, '(') == token_marks(ts1, '(') + char_count(body@, '('));
            assert(token_marks(ts3, '(') == token_marks(ts2, '('));
            assert(token_marks(ts1, ')') == token_marks(ts, ')'));
            assert(token_marks(ts2, ')') == token_marks(ts1, ')') + char_count(body@, ')'));
            assert(token_marks(ts3, ')') == token_marks(ts2, ')'));
            lemma_push_nested(ts, open@);
            lemma_push_nested(ts1, text@);
            lemma_push_nested(ts2, close@);
        }
        self.output.push(open);
        self.output.push(text);
        self.output.push(close);
    }

    /// Produces a quote token for the double quote at the position reached,
    /// which leaves the quote tokens unpaired.
    pub fn emit_lone_quote(&mut self)
        requires
            old(self).wf(),
            old(self).pos < old(self).chars.len(),
            old(self).chars@[old(self).pos as int] == '"',
        ensures
            final(self).counted_wf(),
            final(self).chars == old(self).chars,
            final(self).state() == old(self).state().emit(
                SpecToken::Punctuation(Punctuation::Quote),
                old(self).pos + 1,
            ),
    {
        let ghost ts = tokens_view(self.output@);
        self.eat();
        let t = Token::Punctuation(Punctuation::Quote);
        proof {
            lemma_push_view(self.output@, t);
            let ts1 = ts.push(t@);
            assert(ts1.drop_last() =~= ts);
            assert(paren_balance(ts1) == paren_balance(ts));
            lemma_texts_marks();
            assert(token_marks(ts1, '"') == token_marks(ts, '"') + 1);
            assert(token_marks(ts1, '(') == token_marks(ts, '('));
            assert(token_marks(ts1, ')') == token_marks(ts, ')'));
            lemma_push_nested(ts, t@);
        }
        self.output.push(t);
    }
}

} // verus!
