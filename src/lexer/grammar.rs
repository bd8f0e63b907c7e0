//! The language's lexical grammar as mathematical functions over the input
//! characters.
//!
//! A scan is modelled by a [`ScanState`]: the position reached, the number of
//! open parentheses, the stack of indentation widths of the open blocks and
//! the tokens produced so far. Each function maps the input and a state to
//! the state after one construct, or to the error that ends the scan.

use vstd::prelude::*;
use crate::lexer::token::{
    Construct, Keyword, Loc, Operator, Punctuation, Span, SpecLexError, SpecToken,
};

verus! {

/// Addition that stops at `u32::MAX`.
pub open spec fn sat_add(a: u32, b: u32) -> u32 {
    if a + b > u32::MAX {
        u32::MAX
    } else {
        (a + b) as u32
    }
}

/// The location after reading `c` at `l`.
pub open spec fn advance(l: Loc, c: char) -> Loc {
    if c == '\n' {
        Loc { line: sat_add(l.line, 1), col: 0 }
    } else if c == '\t' {
        Loc { line: l.line, col: sat_add(l.col, 4) }
    } else {
        Loc { line: l.line, col: sat_add(l.col, 1) }
    }
}

/// The location of position `p` of `s`.
pub open spec fn loc_at(s: Seq<char>, p: int) -> Loc
    decreases p,
{
    if p <= 0 || p > s.len() {
        Loc { line: 0, col: 0 }
    } else {
        advance(loc_at(s, p - 1), s[p - 1])
    }
}

/// Classes of characters that the scanner reads in runs.
#[derive(Debug, Copy, Clone, PartialEq, Eq, Structural)]
pub enum CharClass {
    /// Whitespace, as Unicode's White_Space property has it, other than a
    /// newline.
    Blank,
    /// Any whitespace, newlines included.
    Space,
    /// Letters and digits: identifiers and word operators.
    Word,
    /// Anything but a space or a newline: the lookahead token.
    Lexeme,
    /// Anything but a double quote: the body of a string literal.
    Text,
    /// Decimal digits.
    Digit,
}

/// The characters of Unicode's White_Space property, but the newline.
pub open spec fn is_blank(c: char) -> bool {
    ||| ('\t' <= c && c <= '\r' && c != '\n')
    ||| c == ' '
    ||| c == '\u{85}'
    ||| c == '\u{A0}'
    ||| c == '\u{1680}'
    ||| ('\u{2000}' <= c && c <= '\u{200A}')
    ||| c == '\u{2028}'
    ||| c == '\u{2029}'
    ||| c == '\u{202F}'
    ||| c == '\u{205F}'
    ||| c == '\u{3000}'
}

pub open spec fn is_letter(c: char) -> bool {
    ('a' <= c && c <= 'z') || ('A' <= c && c <= 'Z')
}

pub open spec fn is_digit(c: char) -> bool {
    '0' <= c && c <= '9'
}

pub open spec fn in_class(c: char, k: CharClass) -> bool {
    match k {
        CharClass::Blank => is_blank(c),
        CharClass::Space => is_blank(c) || c == '\n',
        CharClass::Word => is_letter(c) || is_digit(c),
        CharClass::Lexeme => c != ' ' && c != '\n',
        CharClass::Text => c != '"',
        CharClass::Digit => is_digit(c),
    }
}

/// The end of the run of characters of class `k` that starts at `p`.
pub open spec fn run_end(s: Seq<char>, p: int, k: CharClass) -> int
    decreases s.len() - p,
{
    if 0 <= p < s.len() && in_class(s[p], k) {
        run_end(s, p + 1, k)
    } else {
        p
    }
}

pub proof fn lemma_run_end(s: Seq<char>, p: int, k: CharClass)
    requires
        0 <= p <= s.len(),
    ensures
        p <= run_end(s, p, k) <= s.len(),
        forall|i: int| p <= i < run_end(s, p, k) ==> in_class(#[trigger] s[i], k),
        run_end(s, p, k) < s.len() ==> !in_class(s[run_end(s, p, k)], k),
    decreases s.len() - p,
{
    if p < s.len() && in_class(s[p], k) {
        lemma_run_end(s, p + 1, k);
    }
}

/// Whether the characters of `s` from `p` on begin with `lit`.
pub open spec fn text_at(s: Seq<char>, p: int, lit: Seq<char>) -> bool {
    0 <= p && p + lit.len() <= s.len() && s.subrange(p, p + lit.len()) == lit
}

/// The text of the lookahead token at `p`: everything up to the next space or newline.
pub open spec fn lookahead(s: Seq<char>, p: int) -> Seq<char> {
    s.subrange(p, run_end(s, p, CharClass::Lexeme))
}

/// The error for a required lexeme that is missing at `p`: the token that
/// stands there instead, empty at the end of the input.
pub open spec fn unexpected_at(s: Seq<char>, p: int) -> SpecLexError {
    SpecLexError::UnexpectedToken(Span { start: loc_at(s, p), stop: loc_at(s, p) }, lookahead(s, p))
}

/// The error for a construct that is missing at `p`: the end of the input
/// inside `ctx`, or the token that stands there instead.
pub open spec fn fail_at(s: Seq<char>, p: int, ctx: Construct) -> SpecLexError {
    if p >= s.len() {
        SpecLexError::UnexpectedEndOfInput(ctx)
    } else {
        unexpected_at(s, p)
    }
}

pub open spec fn keyword_text(k: Keyword) -> Seq<char> {
    match k {
        Keyword::Function => "function"@,
        Keyword::EndFunction => "endfunction"@,
        Keyword::If => "if"@,
        Keyword::Then => "then"@,
        Keyword::ElseIf => "elseif"@,
        Keyword::Else => "else"@,
        Keyword::EndIf => "endif"@,
        Keyword::Switch => "switch"@,
        Keyword::Case => "case"@,
        Keyword::Default => "default"@,
        Keyword::EndSwitch => "endswitch"@,
        Keyword::While => "while"@,
        Keyword::EndWhile => "endwhile"@,
        Keyword::Do => "do"@,
        Keyword::Until => "until"@,
        Keyword::For => "for"@,
        Keyword::To => "to"@,
        Keyword::Next => "next"@,
        Keyword::Return => "return"@,
    }
}

pub open spec fn punctuation_text(p: Punctuation) -> Seq<char> {
    match p {
        Punctuation::OpenRoundBracket => "("@,
        Punctuation::CloseRoundBracket => ")"@,
        Punctuation::ByRef => ":byRef"@,
        Punctuation::ByVal => ":byVal"@,
        Punctuation::Colon => ":"@,
        Punctuation::Comma => ","@,
        Punctuation::Quote => "\""@,
    }
}

pub open spec fn operator_text(o: Operator) -> Seq<char> {
    match o {
        Operator::Equals => "="@,
        Operator::Times => "*"@,
        Operator::Plus => "+"@,
        Operator::Minus => "-"@,
        Operator::Divide => "/"@,
        Operator::Comparison => "=="@,
        Operator::And => "AND"@,
        Operator::Or => "OR"@,
        Operator::Not => "NOT"@,
        Operator::NotEquals => "!="@,
        Operator::Increment => "+="@,
    }
}

pub proof fn lemma_texts_nonempty()
    ensures
        forall|k: Keyword| (#[trigger] keyword_text(k)).len() > 0,
        forall|p: Punctuation| (#[trigger] punctuation_text(p)).len() > 0,
        forall|o: Operator| (#[trigger] operator_text(o)).len() > 0,
{
    reveal_strlit("function");
    reveal_strlit("endfunction");
    reveal_strlit("if");
    reveal_strlit("then");
    reveal_strlit("elseif");
    reveal_strlit("else");
    reveal_strlit("endif");
    reveal_strlit("switch");
    reveal_strlit("case");
    reveal_strlit("default");
    reveal_strlit("endswitch");
    reveal_strlit("while");
    reveal_strlit("endwhile");
    reveal_strlit("do");
    reveal_strlit("until");
    reveal_strlit("for");
    reveal_strlit("to");
    reveal_strlit("next");
    reveal_strlit("return");
    reveal_strlit("(");
    reveal_strlit(")");
    reveal_strlit(":byRef");
    reveal_strlit(":byVal");
    reveal_strlit(":");
    reveal_strlit(",");
    reveal_strlit("\"");
    reveal_strlit("=");
    reveal_strlit("*");
    reveal_strlit("+");
    reveal_strlit("-");
    reveal_strlit("/");
    reveal_strlit("==");
    reveal_strlit("AND");
    reveal_strlit("OR");
    reveal_strlit("NOT");
    reveal_strlit("!=");
    reveal_strlit("+=");
}


/// The state of a scan: the position reached in the input, the number of
/// parentheses open, the indentation widths of the open blocks (innermost
/// last) and the tokens produced so far.
pub struct ScanState {
    pub pos: int,
    pub depth: nat,
    pub indents: Seq<u32>,
    pub tokens: Seq<SpecToken>,
}

/// The parenthesis depth after producing `t` at depth `d`.
pub open spec fn paren_step(d: nat, t: SpecToken) -> nat {
    match t {
        SpecToken::Punctuation(Punctuation::OpenRoundBracket) => d + 1,
        SpecToken::Punctuation(Punctuation::CloseRoundBracket) => (d - 1) as nat,
        _ => d,
    }
}

impl ScanState {
    /// The same state at position `p`.
    pub open spec fn at(self, p: int) -> ScanState {
        ScanState { pos: p, ..self }
    }

    /// The state after producing `t`, with the input read up to `p`.
    pub open spec fn emit(self, t: SpecToken, p: int) -> ScanState {
        ScanState {
            pos: p,
            depth: paren_step(self.depth, t),
            indents: self.indents,
            tokens: self.tokens.push(t),
        }
    }
}

/// The outcome of scanning one construct.
pub type Scan = Result<ScanState, SpecLexError>;

/// How much of the input is left after `st`.
pub open spec fn remaining(s: Seq<char>, st: ScanState) -> nat {
    if 0 <= st.pos <= s.len() {
        (s.len() - st.pos) as nat
    } else {
        0
    }
}

/// Whether `b` lies strictly further into the input than `a`.
pub open spec fn advanced(s: Seq<char>, a: ScanState, b: ScanState) -> bool {
    0 <= a.pos < b.pos <= s.len()
}

/// The error for a construct that consumed nothing where it had to.
pub open spec fn stalled(s: Seq<char>, st: ScanState) -> SpecLexError {
    fail_at(s, st.pos, Construct::Statement)
}

/// Whether keyword `k` follows `p`, after blanks.
pub open spec fn at_keyword(s: Seq<char>, p: int, k: Keyword) -> bool {
    text_at(s, run_end(s, p, CharClass::Blank), keyword_text(k))
}

/// The same state past the blanks that follow.
pub open spec fn skip_blanks(s: Seq<char>, st: ScanState) -> ScanState {
    st.at(run_end(s, st.pos, CharClass::Blank))
}

/// Requires keyword `k` after blanks.
pub open spec fn lex_keyword(s: Seq<char>, st: ScanState, k: Keyword) -> Scan {
    let p = run_end(s, st.pos, CharClass::Blank);
    if text_at(s, p, keyword_text(k)) {
        Ok(st.emit(SpecToken::Keyword(k), p + keyword_text(k).len()))
    } else {
        Err(unexpected_at(s, p))
    }
}

/// Requires an identifier, a non-empty run of letters and digits, right at
/// the position reached.
pub open spec fn lex_identifier(s: Seq<char>, st: ScanState, ctx: Construct) -> Scan {
    let p = st.pos;
    let e = run_end(s, p, CharClass::Word);
    if p < e {
        Ok(st.emit(SpecToken::Ident(s.subrange(p, e)), e))
    } else {
        Err(fail_at(s, p, ctx))
    }
}

/// Requires punctuation `pu` right at the position reached. A closing
/// parenthesis with none open is an error.
pub open spec fn lex_punctuation(s: Seq<char>, st: ScanState, pu: Punctuation) -> Scan {
    if text_at(s, st.pos, punctuation_text(pu)) && !(pu == Punctuation::CloseRoundBracket
        && st.depth == 0) {
        Ok(st.emit(SpecToken::Punctuation(pu), st.pos + punctuation_text(pu).len()))
    } else {
        Err(unexpected_at(s, st.pos))
    }
}

/// Requires the end of a line after blanks, and consumes it.
pub open spec fn lex_newline(s: Seq<char>, st: ScanState, ctx: Construct) -> Scan {
    let p = run_end(s, st.pos, CharClass::Blank);
    if p < s.len() && s[p] == '\n' {
        Ok(st.at(p + 1))
    } else {
        Err(fail_at(s, p, ctx))
    }
}

/// A string literal at the opening quote: the quote, the text up to the
/// closing quote, and the closing quote.
pub open spec fn lex_string(s: Seq<char>, st: ScanState) -> Scan {
    let p = st.pos;
    let e = run_end(s, p + 1, CharClass::Text);
    if e >= s.len() {
        Err(SpecLexError::UnexpectedEndOfInput(Construct::StringLiteral))
    } else {
        Ok(
            st.emit(SpecToken::Punctuation(Punctuation::Quote), p + 1).emit(
                SpecToken::Str(s.subrange(p + 1, e)),
                e,
            ).emit(SpecToken::Punctuation(Punctuation::Quote), e + 1),
        )
    }
}

/// The value of a run of decimal digits.
pub open spec fn digits_value(t: Seq<char>) -> int
    decreases t.len(),
{
    if t.len() == 0 {
        0
    } else {
        digits_value(t.drop_last()) * 10 + (t.last() as int - '0' as int)
    }
}

pub open spec fn all_digits(t: Seq<char>) -> bool {
    forall|i: int| 0 <= i < t.len() ==> is_digit(#[trigger] t[i])
}

/// Whether the characters of `s` from `p` up to `e` form a decimal literal
/// as a float parser reads it: digits, a dot, digits, and an optional
/// exponent (`e` or `E`, an optional sign, digits).
pub open spec fn is_decimal_at(s: Seq<char>, p: int, e: int) -> bool {
    let a = run_end(s, p, CharClass::Digit);
    let b = run_end(s, a + 1, CharClass::Digit);
    let c = if b + 1 < e && (s[b + 1] == '+' || s[b + 1] == '-') {
        b + 2
    } else {
        b + 1
    };
    &&& p < a < e
    &&& s[a] == '.'
    &&& (b == e || (b < e && (s[b] == 'e' || s[b] == 'E') && c < e && run_end(
        s,
        c,
        CharClass::Digit,
    ) == e))
}

/// A decimal literal holds no double quote or parenthesis.
pub proof fn lemma_decimal_unmarked(s: Seq<char>, p: int, e: int)
    requires
        0 <= p <= e <= s.len(),
        is_decimal_at(s, p, e),
    ensures
        unmarked(s, p, e),
{
    let a = run_end(s, p, CharClass::Digit);
    lemma_run_end(s, p, CharClass::Digit);
    let b = run_end(s, a + 1, CharClass::Digit);
    lemma_run_end(s, a + 1, CharClass::Digit);
    let c = if b + 1 < e && (s[b + 1] == '+' || s[b + 1] == '-') {
        b + 2
    } else {
        b + 1
    };
    if b < e {
        lemma_run_end(s, c, CharClass::Digit);
    }
    assert forall|i: int| p <= i < e implies !is_mark(#[trigger] s[i]) by {
        if i < a {
        } else if i == a {
        } else if i < b {
        } else if i == b {
        } else if i < c {
        } else {
        }
    }
}

/// A numeral at the position reached, which must begin with a digit: its
/// text is the whole lookahead token, up to the next space or newline, read
/// as a signed 64-bit integer or, holding a dot, as a decimal literal.
pub open spec fn lex_number(s: Seq<char>, st: ScanState) -> Scan {
    let p = st.pos;
    let e = run_end(s, p, CharClass::Lexeme);
    let t = s.subrange(p, e);
    if !(0 <= p < s.len() && is_digit(s[p])) {
        Err(unexpected_at(s, p))
    } else if all_digits(t) && digits_value(t) <= i64::MAX {
        Ok(st.emit(SpecToken::Integer(digits_value(t) as i64), e))
    } else if is_decimal_at(s, p, e) {
        Ok(st.emit(SpecToken::Float(t), e))
    } else {
        Err(SpecLexError::InvalidNumberLiteral(Span { start: loc_at(s, p), stop: loc_at(s, e) }, t))
    }
}

/// The punctuation at `p`, in the order `(`, `)`, `:byRef`, `:byVal`, `:`,
/// `,`, `"`: longer texts before their prefixes.
pub open spec fn any_punctuation(s: Seq<char>, p: int) -> Option<Punctuation> {
    if text_at(s, p, punctuation_text(Punctuation::OpenRoundBracket)) {
        Some(Punctuation::OpenRoundBracket)
    } else if text_at(s, p, punctuation_text(Punctuation::CloseRoundBracket)) {
        Some(Punctuation::CloseRoundBracket)
    } else if text_at(s, p, punctuation_text(Punctuation::ByRef)) {
        Some(Punctuation::ByRef)
    } else if text_at(s, p, punctuation_text(Punctuation::ByVal)) {
        Some(Punctuation::ByVal)
    } else if text_at(s, p, punctuation_text(Punctuation::Colon)) {
        Some(Punctuation::Colon)
    } else if text_at(s, p, punctuation_text(Punctuation::Comma)) {
        Some(Punctuation::Comma)
    } else if text_at(s, p, punctuation_text(Punctuation::Quote)) {
        Some(Punctuation::Quote)
    } else {
        None
    }
}

/// Any punctuation right at the position reached.
pub open spec fn lex_any_punctuation(s: Seq<char>, st: ScanState) -> Scan {
    match any_punctuation(s, st.pos) {
        Some(pu) => lex_punctuation(s, st, pu),
        None => Err(unexpected_at(s, st.pos)),
    }
}

/// The operator at `p`, in the order `==`, `!=`, `=`, `*`, `/`, `+=`, `+`,
/// `-`, `AND`, `OR`, `NOT`: longer texts before their prefixes.
pub open spec fn any_operator(s: Seq<char>, p: int) -> Option<Operator> {
    if text_at(s, p, operator_text(Operator::Comparison)) {
        Some(Operator::Comparison)
    } else if text_at(s, p, operator_text(Operator::NotEquals)) {
        Some(Operator::NotEquals)
    } else if text_at(s, p, operator_text(Operator::Equals)) {
        Some(Operator::Equals)
    } else if text_at(s, p, operator_text(Operator::Times)) {
        Some(Operator::Times)
    } else if text_at(s, p, operator_text(Operator::Divide)) {
        Some(Operator::Divide)
    } else if text_at(s, p, operator_text(Operator::Increment)) {
        Some(Operator::Increment)
    } else if text_at(s, p, operator_text(Operator::Plus)) {
        Some(Operator::Plus)
    } else if text_at(s, p, operator_text(Operator::Minus)) {
        Some(Operator::Minus)
    } else if text_at(s, p, operator_text(Operator::And)) {
        Some(Operator::And)
    } else if text_at(s, p, operator_text(Operator::Or)) {
        Some(Operator::Or)
    } else if text_at(s, p, operator_text(Operator::Not)) {
        Some(Operator::Not)
    } else {
        None
    }
}

/// Any operator right at the position reached.
pub open spec fn lex_any_operator(s: Seq<char>, st: ScanState) -> Scan {
    match any_operator(s, st.pos) {
        Some(o) => Ok(st.emit(SpecToken::Operator(o), st.pos + operator_text(o).len())),
        None => Err(unexpected_at(s, st.pos)),
    }
}

/// The operator that a whole word spells, if any.
pub open spec fn word_operator(w: Seq<char>) -> Option<Operator> {
    if w == operator_text(Operator::And) {
        Some(Operator::And)
    } else if w == operator_text(Operator::Or) {
        Some(Operator::Or)
    } else if w == operator_text(Operator::Not) {
        Some(Operator::Not)
    } else {
        None
    }
}

/// Whether a whole word is a keyword.
pub open spec fn is_keyword_word(w: Seq<char>) -> bool {
    exists|k: Keyword| w == #[trigger] keyword_text(k)
}


/// Whether an executable step, which returned `r` and left the scan in
/// `after`, did what `expected` describes.
pub open spec fn outcome<E: View<V = SpecLexError>>(
    r: Result<(), E>,
    after: ScanState,
    expected: Scan,
) -> bool {
    match expected {
        Ok(st) => r is Ok && after == st,
        Err(e) => match r {
            Ok(_) => false,
            Err(x) => x@ == e,
        },
    }
}


/// What an expression does at the next non-blank character.
pub enum ExprStep {
    /// The expression ends here.
    Finish(ScanState),
    /// One lexeme was read, or failed.
    Next(Scan),
    /// A callee was read and its argument list follows.
    Call(ScanState),
}

/// The next step of an expression whose parentheses started at depth `d0`.
pub open spec fn expr_step(s: Seq<char>, st: ScanState, d0: nat) -> ExprStep {
    let p = run_end(s, st.pos, CharClass::Blank);
    let here = st.at(p);
    if p >= s.len() || s[p] == '\n' {
        ExprStep::Finish(here)
    } else if s[p] == '"' {
        ExprStep::Next(lex_string(s, here))
    } else if is_letter(s[p]) {
        let e = run_end(s, p, CharClass::Word);
        let w = s.subrange(p, e);
        match word_operator(w) {
            Some(o) => ExprStep::Next(Ok(here.emit(SpecToken::Operator(o), e))),
            None => if is_keyword_word(w) {
                ExprStep::Finish(here)
            } else if e < s.len() && s[e] == '(' {
                ExprStep::Call(here.emit(SpecToken::Ident(w), e))
            } else {
                ExprStep::Next(Ok(here.emit(SpecToken::Ident(w), e)))
            },
        }
    } else if s[p] == '(' {
        ExprStep::Next(Ok(here.emit(SpecToken::Punctuation(Punctuation::OpenRoundBracket), p + 1)))
    } else if s[p] == ')' {
        if st.depth <= d0 {
            ExprStep::Finish(here)
        } else {
            ExprStep::Next(
                Ok(here.emit(SpecToken::Punctuation(Punctuation::CloseRoundBracket), p + 1)),
            )
        }
    } else if is_digit(s[p]) {
        ExprStep::Next(lex_number(s, here))
    } else {
        match lex_any_punctuation(s, here) {
            Ok(st2) => ExprStep::Next(Ok(st2)),
            Err(_) => match lex_any_operator(s, here) {
                Ok(st2) => ExprStep::Next(Ok(st2)),
                Err(_) => ExprStep::Finish(here),
            },
        }
    }
}

/// An expression ends well when its parentheses are closed and it produced
/// at least one token.
pub open spec fn expr_finish(s: Seq<char>, st: ScanState, d0: nat, n0: int) -> Scan {
    if st.depth != d0 || st.tokens.len() <= n0 {
        Err(fail_at(s, st.pos, Construct::Expression))
    } else {
        Ok(st)
    }
}

/// An expression, scanned left to right without grouping: identifiers,
/// calls, numerals, strings, parentheses, punctuation and operators, up to
/// the end of the line, a keyword, a closing parenthesis that it did not
/// open, or a character that none of these begins.
pub open spec fn expression(s: Seq<char>, st: ScanState) -> Scan
    decreases remaining(s, st), 3nat,
{
    expr_items(s, st, st.depth, st.tokens.len() as int)
}

/// The rest of an expression that began at depth `d0` with `n0` tokens produced.
pub open spec fn expr_items(s: Seq<char>, st: ScanState, d0: nat, n0: int) -> Scan
    decreases remaining(s, st), 2nat,
{
    match expr_step(s, st, d0) {
        ExprStep::Finish(here) => expr_finish(s, here, d0, n0),
        ExprStep::Next(Err(e)) => Err(e),
        ExprStep::Next(Ok(st2)) => if advanced(s, st, st2) {
            expr_items(s, st2, d0, n0)
        } else {
            Err(stalled(s, st2))
        },
        ExprStep::Call(st1) => if advanced(s, st, st1) {
            match argument_list(s, st1) {
                Err(e) => Err(e),
                Ok(st2) => if advanced(s, st, st2) {
                    expr_items(s, st2, d0, n0)
                } else {
                    Err(stalled(s, st2))
                },
            }
        } else {
            Err(stalled(s, st1))
        },
    }
}

/// The argument list of a call, at its opening parenthesis.
pub open spec fn argument_list(s: Seq<char>, st: ScanState) -> Scan
    decreases remaining(s, st), 0nat,
{
    if 0 <= st.pos < s.len() && s[st.pos] == '(' {
        arguments(
            s,
            st.emit(SpecToken::Punctuation(Punctuation::OpenRoundBracket), st.pos + 1),
        )
    } else {
        Err(fail_at(s, st.pos, Construct::Expression))
    }
}

/// Comma-separated expressions up to the closing parenthesis of a call.
pub open spec fn arguments(s: Seq<char>, st: ScanState) -> Scan
    decreases remaining(s, st), 4nat,
{
    let p = run_end(s, st.pos, CharClass::Blank);
    let here = st.at(p);
    if p >= s.len() {
        Err(SpecLexError::UnexpectedEndOfInput(Construct::Expression))
    } else if s[p] == ')' {
        Ok(here.emit(SpecToken::Punctuation(Punctuation::CloseRoundBracket), p + 1))
    } else {
        proof {
            if 0 <= st.pos <= s.len() {
                lemma_run_end(s, st.pos, CharClass::Blank);
            }
        }
        match expression(s, here) {
            Err(e) => Err(e),
            Ok(st2) => {
                let q = run_end(s, st2.pos, CharClass::Blank);
                if q < s.len() && s[q] == ',' {
                    let st3 = st2.emit(SpecToken::Punctuation(Punctuation::Comma), q + 1);
                    if advanced(s, st, st3) {
                        arguments(s, st3)
                    } else {
                        Err(stalled(s, st3))
                    }
                } else if q < s.len() && s[q] == ')' {
                    Ok(st2.emit(SpecToken::Punctuation(Punctuation::CloseRoundBracket), q + 1))
                } else {
                    Err(fail_at(s, q, Construct::Expression))
                }
            },
        }
    }
}


/// Requires operator `o` right at the position reached.
pub open spec fn lex_operator(s: Seq<char>, st: ScanState, o: Operator) -> Scan {
    if text_at(s, st.pos, operator_text(o)) {
        Ok(st.emit(SpecToken::Operator(o), st.pos + operator_text(o).len()))
    } else {
        Err(unexpected_at(s, st.pos))
    }
}

/// Whether the line reached stands at the width of the innermost open block.
pub open spec fn at_level(s: Seq<char>, st: ScanState) -> bool {
    st.indents.len() > 0 && loc_at(s, st.pos).col == st.indents.last()
}

/// The keyword that closes a statement, on a line at the statement's own
/// width. A line at the width of an outer block instead, which the block
/// before has already checked to be open, lacks that keyword.
pub open spec fn closer(s: Seq<char>, st: ScanState, k: Keyword) -> Scan {
    if at_level(s, st) {
        lex_keyword(s, st, k)
    } else {
        Err(unexpected_at(s, st.pos))
    }
}

/// The parameter list of a function definition, at its opening parenthesis.
pub open spec fn parameter_list(s: Seq<char>, st: ScanState) -> Scan {
    match lex_punctuation(s, st, Punctuation::OpenRoundBracket) {
        Err(e) => Err(e),
        Ok(st1) => parameters(s, st1),
    }
}

/// The parameter names of a function definition, after its opening parenthesis.
pub open spec fn parameters(s: Seq<char>, st: ScanState) -> Scan
    decreases remaining(s, st),
{
    let p = run_end(s, st.pos, CharClass::Blank);
    let here = st.at(p);
    if p < s.len() && s[p] == ')' {
        Ok(here.emit(SpecToken::Punctuation(Punctuation::CloseRoundBracket), p + 1))
    } else {
        match lex_identifier(s, here, Construct::Statement) {
            Err(e) => Err(e),
            Ok(st1) => {
                let q = run_end(s, st1.pos, CharClass::Blank);
                if q < s.len() && s[q] == ',' {
                    let st2 = st1.emit(SpecToken::Punctuation(Punctuation::Comma), q + 1);
                    if advanced(s, st, st2) {
                        parameters(s, st2)
                    } else {
                        Err(stalled(s, st2))
                    }
                } else if q < s.len() && s[q] == ')' {
                    Ok(st1.emit(SpecToken::Punctuation(Punctuation::CloseRoundBracket), q + 1))
                } else {
                    Err(fail_at(s, q, Construct::Statement))
                }
            },
        }
    }
}

/// `function name(parameters)` and the end of its line.
pub open spec fn function_header(s: Seq<char>, st: ScanState) -> Scan {
    match lex_keyword(s, st, Keyword::Function) {
        Err(e) => Err(e),
        Ok(st1) => match lex_identifier(s, skip_blanks(s, st1), Construct::Statement) {
            Err(e) => Err(e),
            Ok(st2) => match parameter_list(s, skip_blanks(s, st2)) {
                Err(e) => Err(e),
                Ok(st3) => lex_newline(s, st3, Construct::Statement),
            },
        },
    }
}

/// A condition, `then` and the end of its line.
pub open spec fn condition_header(s: Seq<char>, st: ScanState) -> Scan {
    match expression(s, st) {
        Err(e) => Err(e),
        Ok(st1) => match lex_keyword(s, st1, Keyword::Then) {
            Err(e) => Err(e),
            Ok(st2) => lex_newline(s, st2, Construct::Statement),
        },
    }
}

/// `keyword expression` and the end of its line.
pub open spec fn keyword_expression_line(s: Seq<char>, st: ScanState, k: Keyword) -> Scan {
    match lex_keyword(s, st, k) {
        Err(e) => Err(e),
        Ok(st1) => match expression(s, st1) {
            Err(e) => Err(e),
            Ok(st2) => lex_newline(s, st2, Construct::Statement),
        },
    }
}

/// `keyword:` and the end of its line.
pub open spec fn keyword_colon_line(s: Seq<char>, st: ScanState, k: Keyword) -> Scan {
    match lex_keyword(s, st, k) {
        Err(e) => Err(e),
        Ok(st1) => match lex_punctuation(s, skip_blanks(s, st1), Punctuation::Colon) {
            Err(e) => Err(e),
            Ok(st2) => lex_newline(s, st2, Construct::Statement),
        },
    }
}

/// `switch name:` and the end of its line.
pub open spec fn switch_header(s: Seq<char>, st: ScanState) -> Scan {
    match lex_keyword(s, st, Keyword::Switch) {
        Err(e) => Err(e),
        Ok(st1) => match lex_identifier(s, skip_blanks(s, st1), Construct::Statement) {
            Err(e) => Err(e),
            Ok(st2) => match lex_punctuation(s, skip_blanks(s, st2), Punctuation::Colon) {
                Err(e) => Err(e),
                Ok(st3) => lex_newline(s, st3, Construct::Statement),
            },
        },
    }
}

/// `for name = expression to expression` and the end of its line.
pub open spec fn for_header(s: Seq<char>, st: ScanState) -> Scan {
    match lex_keyword(s, st, Keyword::For) {
        Err(e) => Err(e),
        Ok(st1) => match lex_identifier(s, skip_blanks(s, st1), Construct::Statement) {
            Err(e) => Err(e),
            Ok(st2) => match lex_operator(s, skip_blanks(s, st2), Operator::Equals) {
                Err(e) => Err(e),
                Ok(st3) => match expression(s, st3) {
                    Err(e) => Err(e),
                    Ok(st4) => match lex_keyword(s, st4, Keyword::To) {
                        Err(e) => Err(e),
                        Ok(st5) => match expression(s, st5) {
                            Err(e) => Err(e),
                            Ok(st6) => lex_newline(s, st6, Construct::Statement),
                        },
                    },
                },
            },
        },
    }
}

/// A function application: the callee's name and its argument list.
pub open spec fn application(s: Seq<char>, st: ScanState) -> Scan {
    match lex_identifier(s, st, Construct::Statement) {
        Err(e) => Err(e),
        Ok(st1) => argument_list(s, st1),
    }
}

/// `return expression`.
pub open spec fn return_statement(s: Seq<char>, st: ScanState) -> Scan {
    match lex_keyword(s, st, Keyword::Return) {
        Err(e) => Err(e),
        Ok(st1) => expression(s, st1),
    }
}

/// `name = expression` or `name += expression`.
pub open spec fn assignment(s: Seq<char>, st: ScanState) -> Scan {
    match lex_identifier(s, st, Construct::Statement) {
        Err(e) => Err(e),
        Ok(st1) => {
            let p = run_end(s, st1.pos, CharClass::Blank);
            if text_at(s, p, operator_text(Operator::Equals)) {
                expression(
                    s,
                    st1.emit(
                        SpecToken::Operator(Operator::Equals),
                        p + operator_text(Operator::Equals).len(),
                    ),
                )
            } else if text_at(s, p, operator_text(Operator::Increment)) {
                expression(
                    s,
                    st1.emit(
                        SpecToken::Operator(Operator::Increment),
                        p + operator_text(Operator::Increment).len(),
                    ),
                )
            } else {
                Err(fail_at(s, p, Construct::Statement))
            }
        },
    }
}

/// The state of a scan that opens a level of indentation at the next non-blank
/// line, which must lie deeper than the innermost open level.
pub open spec fn open_level(s: Seq<char>, st: ScanState) -> Scan {
    let p = run_end(s, st.pos, CharClass::Space);
    let l = loc_at(s, p);
    if p >= s.len() {
        Err(SpecLexError::UnexpectedEndOfInput(Construct::Block))
    } else if st.indents.len() > 0 && l.col <= st.indents.last() {
        Err(SpecLexError::IndentationError(l))
    } else {
        Ok(ScanState { pos: p, indents: st.indents.push(l.col), ..st })
    }
}

/// A statement, after any blank lines and blanks before it. With no block
/// open, the statement's own column serves as the level of its closing
/// keyword.
pub open spec fn statement(s: Seq<char>, st: ScanState) -> Scan
    decreases remaining(s, st), 7nat,
{
    let p = run_end(s, st.pos, CharClass::Space);
    proof {
        if 0 <= st.pos <= s.len() {
            lemma_run_end(s, st.pos, CharClass::Space);
        }
    }
    if p >= s.len() {
        Err(SpecLexError::UnexpectedEndOfInput(Construct::Statement))
    } else if st.indents.len() == 0 {
        statement_alone(s, st.at(p))
    } else {
        statement_at(s, st.at(p))
    }
}

/// A statement at its first character with no block open: its own column
/// serves as the level of its closing keyword while it is read.
pub open spec fn statement_alone(s: Seq<char>, st: ScanState) -> Scan
    decreases remaining(s, st), 6nat,
{
    match statement_at(s, ScanState { indents: seq![loc_at(s, st.pos).col], ..st }) {
        Ok(st1) => Ok(ScanState { indents: st.indents, ..st1 }),
        Err(e) => Err(e),
    }
}

/// A statement at its first character, chosen by its lookahead token: an
/// application when it holds an opening parenthesis, else by the keyword it
/// spells, else an assignment.
pub open spec fn statement_at(s: Seq<char>, st: ScanState) -> Scan
    decreases remaining(s, st), 5nat,
{
    let t = lookahead(s, st.pos);
    if t.contains('(') {
        application(s, st)
    } else if t == keyword_text(Keyword::Function) {
        function_statement(s, st)
    } else if t == keyword_text(Keyword::If) {
        if_statement(s, st)
    } else if t == keyword_text(Keyword::Switch) {
        switch_statement(s, st)
    } else if t == keyword_text(Keyword::While) {
        while_statement(s, st)
    } else if t == keyword_text(Keyword::For) {
        for_statement(s, st)
    } else if t == keyword_text(Keyword::Return) {
        return_statement(s, st)
    } else {
        assignment(s, st)
    }
}

/// An indented block after the line that opens it: statements, one per
/// line, at a width deeper than the enclosing block's, up to a line whose
/// width is that of a block still open.
pub open spec fn block(s: Seq<char>, st: ScanState) -> Scan
    decreases remaining(s, st), 9nat,
{
    match open_level(s, st) {
        Err(e) => Err(e),
        Ok(st1) => {
            proof {
                if 0 <= st.pos <= s.len() {
                    lemma_run_end(s, st.pos, CharClass::Space);
                }
            }
            block_lines(s, st1)
        },
    }
}

/// The statements of a block, from one at the block's width.
pub open spec fn block_lines(s: Seq<char>, st: ScanState) -> Scan
    decreases remaining(s, st), 8nat,
{
    match statement(s, st) {
        Err(e) => Err(e),
        Ok(st1) => match lex_newline(s, st1, Construct::Block) {
            Err(e) => Err(e),
            Ok(st2) => {
                let q = run_end(s, st2.pos, CharClass::Space);
                let l = loc_at(s, q);
                let here = st2.at(q);
                if q >= s.len() {
                    Err(SpecLexError::UnexpectedEndOfInput(Construct::Block))
                } else if at_level(s, here) {
                    if advanced(s, st, here) {
                        block_lines(s, here)
                    } else {
                        Err(stalled(s, here))
                    }
                } else if st2.indents.drop_last().contains(l.col) {
                    Ok(ScanState { indents: st2.indents.drop_last(), ..here })
                } else {
                    Err(SpecLexError::IndentationError(l))
                }
            },
        },
    }
}

/// `function name(parameters)`, its block, `endfunction`.
pub open spec fn function_statement(s: Seq<char>, st: ScanState) -> Scan
    decreases remaining(s, st), 4nat,
{
    match function_header(s, st) {
        Err(e) => Err(e),
        Ok(st1) => if advanced(s, st, st1) {
            match block(s, st1) {
                Err(e) => Err(e),
                Ok(st2) => closer(s, st2, Keyword::EndFunction),
            }
        } else {
            Err(stalled(s, st1))
        },
    }
}

/// `while condition`, its block, `endwhile`.
pub open spec fn while_statement(s: Seq<char>, st: ScanState) -> Scan
    decreases remaining(s, st), 4nat,
{
    match keyword_expression_line(s, st, Keyword::While) {
        Err(e) => Err(e),
        Ok(st1) => if advanced(s, st, st1) {
            match block(s, st1) {
                Err(e) => Err(e),
                Ok(st2) => closer(s, st2, Keyword::EndWhile),
            }
        } else {
            Err(stalled(s, st1))
        },
    }
}

/// `for name = from to upto`, its block, `next name`.
pub open spec fn for_statement(s: Seq<char>, st: ScanState) -> Scan
    decreases remaining(s, st), 4nat,
{
    match for_header(s, st) {
        Err(e) => Err(e),
        Ok(st1) => if advanced(s, st, st1) {
            match block(s, st1) {
                Err(e) => Err(e),
                Ok(st2) => match closer(s, st2, Keyword::Next) {
                    Err(e) => Err(e),
                    Ok(st3) => lex_identifier(s, skip_blanks(s, st3), Construct::Statement),
                },
            }
        } else {
            Err(stalled(s, st1))
        },
    }
}

/// `if condition then`, its block, then what follows it.
pub open spec fn if_statement(s: Seq<char>, st: ScanState) -> Scan
    decreases remaining(s, st), 4nat,
{
    match lex_keyword(s, st, Keyword::If) {
        Err(e) => Err(e),
        Ok(st0) => match condition_header(s, st0) {
            Err(e) => Err(e),
            Ok(st1) => if advanced(s, st, st1) {
                match block(s, st1) {
                    Err(e) => Err(e),
                    Ok(st2) => if advanced(s, st, st2) {
                        if_rest(s, st2)
                    } else {
                        Err(stalled(s, st2))
                    },
                }
            } else {
                Err(stalled(s, st1))
            },
        },
    }
}

/// After a block of an `if`: `elseif condition then` and its block, again;
/// or `else` and its block; then `endif`.
pub open spec fn if_rest(s: Seq<char>, st: ScanState) -> Scan
    decreases remaining(s, st), 4nat,
{
    if !at_level(s, st) {
        Err(unexpected_at(s, st.pos))
    } else if at_keyword(s, st.pos, Keyword::ElseIf) {
        match lex_keyword(s, st, Keyword::ElseIf) {
            Err(e) => Err(e),
            Ok(st0) => match condition_header(s, st0) {
                Err(e) => Err(e),
                Ok(st1) => if advanced(s, st, st1) {
                    match block(s, st1) {
                        Err(e) => Err(e),
                        Ok(st2) => if advanced(s, st, st2) {
                            if_rest(s, st2)
                        } else {
                            Err(stalled(s, st2))
                        },
                    }
                } else {
                    Err(stalled(s, st1))
                },
            },
        }
    } else if at_keyword(s, st.pos, Keyword::Else) {
        match lex_keyword(s, st, Keyword::Else) {
            Err(e) => Err(e),
            Ok(st0) => match lex_newline(s, st0, Construct::Statement) {
                Err(e) => Err(e),
                Ok(st1) => if advanced(s, st, st1) {
                    match block(s, st1) {
                        Err(e) => Err(e),
                        Ok(st2) => closer(s, st2, Keyword::EndIf),
                    }
                } else {
                    Err(stalled(s, st1))
                },
            },
        }
    } else {
        lex_keyword(s, st, Keyword::EndIf)
    }
}

/// `switch name:`, its clauses one level deeper, `endswitch`.
pub open spec fn switch_statement(s: Seq<char>, st: ScanState) -> Scan
    decreases remaining(s, st), 4nat,
{
    match switch_header(s, st) {
        Err(e) => Err(e),
        Ok(st1) => match open_level(s, st1) {
            Err(e) => Err(e),
            Ok(st2) => if advanced(s, st, st2) {
                switch_clauses(s, st2)
            } else {
                Err(stalled(s, st2))
            },
        },
    }
}

/// The clauses of a switch: `case expression` and its block, again; then
/// `default:` and its block.
pub open spec fn switch_clauses(s: Seq<char>, st: ScanState) -> Scan
    decreases remaining(s, st), 4nat,
{
    if at_keyword(s, st.pos, Keyword::Case) {
        match keyword_expression_line(s, st, Keyword::Case) {
            Err(e) => Err(e),
            Ok(st1) => if advanced(s, st, st1) {
                match block(s, st1) {
                    Err(e) => Err(e),
                    Ok(st2) => if !at_level(s, st2) {
                        Err(unexpected_at(s, st2.pos))
                    } else if advanced(s, st, st2) {
                        switch_clauses(s, st2)
                    } else {
                        Err(stalled(s, st2))
                    },
                }
            } else {
                Err(stalled(s, st1))
            },
        }
    } else {
        match keyword_colon_line(s, st, Keyword::Default) {
            Err(e) => Err(e),
            Ok(st1) => if advanced(s, st, st1) {
                match block(s, st1) {
                    Err(e) => Err(e),
                    Ok(st2) => closer(
                        s,
                        ScanState { indents: st2.indents.drop_last(), ..st2 },
                        Keyword::EndSwitch,
                    ),
                }
            } else {
                Err(stalled(s, st1))
            },
        }
    }
}

/// What follows a top-level statement.
pub enum LineEnd {
    /// The input ends.
    Done(ScanState),
    /// The scan fails.
    Failed(SpecLexError),
    /// Another statement follows, at the width of the first.
    Next(ScanState),
}

/// After a top-level statement: the end of the input, or the end of the
/// line, blank lines, and a line at the width of the first statement.
pub open spec fn top_line_end(s: Seq<char>, st: ScanState) -> LineEnd {
    let p = run_end(s, st.pos, CharClass::Blank);
    if p >= s.len() {
        LineEnd::Done(st.at(p))
    } else if s[p] != '\n' {
        LineEnd::Failed(fail_at(s, p, Construct::Statement))
    } else {
        let q = run_end(s, p + 1, CharClass::Space);
        let here = st.at(q);
        if q >= s.len() {
            LineEnd::Done(here)
        } else if !at_level(s, here) {
            LineEnd::Failed(SpecLexError::IndentationError(loc_at(s, q)))
        } else {
            LineEnd::Next(here)
        }
    }
}

/// The top-level statements, from one at the width of the first.
pub open spec fn top_level(s: Seq<char>, st: ScanState) -> Scan
    decreases remaining(s, st),
{
    match statement(s, st) {
        Err(e) => Err(e),
        Ok(st1) => match top_line_end(s, st1) {
            LineEnd::Done(st2) => Ok(st2),
            LineEnd::Failed(e) => Err(e),
            LineEnd::Next(st2) => if advanced(s, st, st2) {
                top_level(s, st2)
            } else {
                Err(stalled(s, st2))
            },
        },
    }
}

/// What scanning `s` yields: the tokens of all its statements, or the first error.
pub open spec fn lex_result(s: Seq<char>) -> Result<Seq<SpecToken>, SpecLexError> {
    let p = run_end(s, 0, CharClass::Space);
    if p >= s.len() {
        Ok(seq![])
    } else {
        match top_level(
            s,
            ScanState { pos: p, depth: 0, indents: seq![loc_at(s, p).col], tokens: seq![] },
        ) {
            Ok(st) => Ok(st.tokens),
            Err(e) => Err(e),
        }
    }
}


/// The sum of +1 for each opening and -1 for each closing parenthesis.
pub open spec fn paren_balance(ts: Seq<SpecToken>) -> int
    decreases ts.len(),
{
    if ts.len() == 0 {
        0
    } else {
        paren_balance(ts.drop_last()) + match ts.last() {
            SpecToken::Punctuation(Punctuation::OpenRoundBracket) => 1int,
            SpecToken::Punctuation(Punctuation::CloseRoundBracket) => -1int,
            _ => 0int,
        }
    }
}

/// No prefix closes more parentheses than it opens.
pub open spec fn well_nested(ts: Seq<SpecToken>) -> bool {
    forall|i: int| 0 <= i <= ts.len() ==> paren_balance(#[trigger] ts.take(i)) >= 0
}


/// The number of times `c` occurs in `s`.
pub open spec fn char_count(s: Seq<char>, c: char) -> nat
    decreases s.len(),
{
    if s.len() == 0 {
        0
    } else {
        char_count(s.drop_last(), c) + if s.last() == c {
            1nat
        } else {
            0nat
        }
    }
}

/// The characters that every scan accounts for: double quotes and parentheses.
pub open spec fn is_mark(c: char) -> bool {
    c == '"' || c == '(' || c == ')'
}

/// How often `c` occurs in the text that `t` was read from, for a mark `c`:
/// in punctuation and in the text of a string literal.
pub open spec fn marks_of(t: SpecToken, c: char) -> nat {
    match t {
        SpecToken::Punctuation(p) => char_count(punctuation_text(p), c),
        SpecToken::Str(b) => char_count(b, c),
        _ => 0,
    }
}

/// How often `c` occurs in the texts that `ts` were read from.
pub open spec fn token_marks(ts: Seq<SpecToken>, c: char) -> nat
    decreases ts.len(),
{
    if ts.len() == 0 {
        0
    } else {
        token_marks(ts.drop_last(), c) + marks_of(ts.last(), c)
    }
}

/// Each double quote and parenthesis of `s` is accounted for by `ts`.
pub open spec fn accounted(s: Seq<char>, ts: Seq<SpecToken>) -> bool {
    &&& char_count(s, '"') == token_marks(ts, '"')
    &&& char_count(s, '(') == token_marks(ts, '(')
    &&& char_count(s, ')') == token_marks(ts, ')')
}

/// No mark stands in `s` from `a` up to `b`.
pub open spec fn unmarked(s: Seq<char>, a: int, b: int) -> bool {
    forall|i: int| a <= i < b ==> !is_mark(#[trigger] s[i])
}

pub proof fn lemma_count_absent(t: Seq<char>, c: char)
    requires
        forall|i: int| 0 <= i < t.len() ==> t[i] != c,
    ensures
        char_count(t, c) == 0,
    decreases t.len(),
{
    if t.len() > 0 {
        lemma_count_absent(t.drop_last(), c);
    }
}

/// The texts of keywords and operators hold no marks, nor that of any
/// punctuation but the parentheses and the quote, which are one mark each.
pub proof fn lemma_texts_marks()
    ensures
        forall|k: Keyword, i: int|
            0 <= i < keyword_text(k).len() ==> !is_mark(#[trigger] keyword_text(k)[i]),
        forall|o: Operator, i: int|
            0 <= i < operator_text(o).len() ==> !is_mark(#[trigger] operator_text(o)[i]),
        forall|p: Punctuation, i: int|
            p != Punctuation::Quote && p != Punctuation::OpenRoundBracket && p
                != Punctuation::CloseRoundBracket && 0 <= i < punctuation_text(p).len()
                ==> !is_mark(#[trigger] punctuation_text(p)[i]),
        forall|p: Punctuation, c: char|
            p != Punctuation::Quote && p != Punctuation::OpenRoundBracket && p
                != Punctuation::CloseRoundBracket && is_mark(c) ==> #[trigger] char_count(
                punctuation_text(p),
                c,
            ) == 0,
        punctuation_text(Punctuation::OpenRoundBracket) == seq!['('],
        punctuation_text(Punctuation::CloseRoundBracket) == seq![')'],
        punctuation_text(Punctuation::Quote) == seq!['"'],
        char_count(seq!['('], '(') == 1,
        char_count(seq!['('], ')') == 0,
        char_count(seq!['('], '"') == 0,
        char_count(seq![')'], '(') == 0,
        char_count(seq![')'], ')') == 1,
        char_count(seq![')'], '"') == 0,
        char_count(seq!['"'], '(') == 0,
        char_count(seq!['"'], ')') == 0,
        char_count(seq!['"'], '"') == 1,
{
    lemma_texts_nonempty();
    assert forall|k: Keyword, i: int|
        0 <= i < keyword_text(k).len() implies !is_mark(#[trigger] keyword_text(k)[i]) by {
        match k {
            Keyword::Function => reveal_strlit("function"),
            Keyword::EndFunction => reveal_strlit("endfunction"),
            Keyword::If => reveal_strlit("if"),
            Keyword::Then => reveal_strlit("then"),
            Keyword::ElseIf => reveal_strlit("elseif"),
            Keyword::Else => reveal_strlit("else"),
            Keyword::EndIf => reveal_strlit("endif"),
            Keyword::Switch => reveal_strlit("switch"),
            Keyword::Case => reveal_strlit("case"),
            Keyword::Default => reveal_strlit("default"),
            Keyword::EndSwitch => reveal_strlit("endswitch"),
            Keyword::While => reveal_strlit("while"),
            Keyword::EndWhile => reveal_strlit("endwhile"),
            Keyword::Do => reveal_strlit("do"),
            Keyword::Until => reveal_strlit("until"),
            Keyword::For => reveal_strlit("for"),
            Keyword::To => reveal_strlit("to"),
            Keyword::Next => reveal_strlit("next"),
            Keyword::Return => reveal_strlit("return"),
        }
    }
    assert forall|o: Operator, i: int|
        0 <= i < operator_text(o).len() implies !is_mark(#[trigger] operator_text(o)[i]) by {
        match o {
            Operator::Equals => reveal_strlit("="),
            Operator::Times => reveal_strlit("*"),
            Operator::Plus => reveal_strlit("+"),
            Operator::Minus => reveal_strlit("-"),
            Operator::Divide => reveal_strlit("/"),
            Operator::Comparison => reveal_strlit("=="),
            Operator::And => reveal_strlit("AND"),
            Operator::Or => reveal_strlit("OR"),
            Operator::Not => reveal_strlit("NOT"),
            Operator::NotEquals => reveal_strlit("!="),
            Operator::Increment => reveal_strlit("+="),
        }
    }
    assert forall|p: Punctuation, i: int|
        p != Punctuation::Quote && p != Punctuation::OpenRoundBracket && p
            != Punctuation::CloseRoundBracket && 0 <= i < punctuation_text(p).len()
            implies !is_mark(#[trigger] punctuation_text(p)[i]) by {
        match p {
            Punctuation::ByRef => reveal_strlit(":byRef"),
            Punctuation::ByVal => reveal_strlit(":byVal"),
            Punctuation::Colon => reveal_strlit(":"),
            Punctuation::Comma => reveal_strlit(","),
            _ => {},
        }
    }
    assert forall|p: Punctuation, c: char|
        p != Punctuation::Quote && p != Punctuation::OpenRoundBracket && p
            != Punctuation::CloseRoundBracket && is_mark(c) implies #[trigger] char_count(
            punctuation_text(p),
            c,
        ) == 0 by {
        assert forall|i: int| 0 <= i < punctuation_text(p).len() implies punctuation_text(p)[i]
            != c by {
            assert(!is_mark(punctuation_text(p)[i]));
        }
        lemma_count_absent(punctuation_text(p), c);
    }
    reveal_strlit("(");
    reveal_strlit(")");
    reveal_strlit("\"");
    assert(punctuation_text(Punctuation::OpenRoundBracket) =~= seq!['(']);
    assert(punctuation_text(Punctuation::CloseRoundBracket) =~= seq![')']);
    assert(punctuation_text(Punctuation::Quote) =~= seq!['"']);
    lemma_count_single('(', '(');
    lemma_count_single('(', ')');
    lemma_count_single('(', '"');
    lemma_count_single(')', '(');
    lemma_count_single(')', ')');
    lemma_count_single(')', '"');
    lemma_count_single('"', '(');
    lemma_count_single('"', ')');
    lemma_count_single('"', '"');
}

proof fn lemma_count_single(a: char, c: char)
    ensures
        char_count(seq![a], c) == if a == c {
            1nat
        } else {
            0nat
        },
{
    assert(seq![a].drop_last() =~= Seq::<char>::empty());
    assert(char_count(Seq::<char>::empty(), c) == 0);
}

/// Where `lit` stands in `s` and holds no mark, neither does `s` there.
pub proof fn lemma_text_at_unmarked(s: Seq<char>, p: int, lit: Seq<char>)
    requires
        text_at(s, p, lit),
        forall|i: int| 0 <= i < lit.len() ==> !is_mark(#[trigger] lit[i]),
    ensures
        unmarked(s, p, p + lit.len()),
{
    assert forall|i: int| p <= i < p + lit.len() implies !is_mark(#[trigger] s[i]) by {
        assert(s.subrange(p, p + lit.len())[i - p] == s[i]);
    }
}

/// A block whose first line is not indented deeper than the block around
/// it is rejected with an indentation error at that line.
pub proof fn lemma_shallow_block_rejected(s: Seq<char>, st: ScanState)
    requires
        run_end(s, st.pos, CharClass::Space) < s.len(),
        st.indents.len() > 0,
        loc_at(s, run_end(s, st.pos, CharClass::Space)).col <= st.indents.last(),
    ensures
        block(s, st) == Err::<ScanState, SpecLexError>(
            SpecLexError::IndentationError(loc_at(s, run_end(s, st.pos, CharClass::Space))),
        ),
{
}

/// Within a block, a line after a statement whose width is neither the
/// block's own nor that of an enclosing block is rejected with an
/// indentation error at that line.
#[verifier::rlimit(50)]
pub proof fn lemma_stray_indentation_rejected(
    s: Seq<char>,
    st: ScanState,
    st1: ScanState,
    st2: ScanState,
)
    requires
        statement(s, st) == Ok::<ScanState, SpecLexError>(st1),
        lex_newline(s, st1, Construct::Block) == Ok::<ScanState, SpecLexError>(st2),
        run_end(s, st2.pos, CharClass::Space) < s.len(),
        st2.indents.len() > 0,
        loc_at(s, run_end(s, st2.pos, CharClass::Space)).col != st2.indents.last(),
        !st2.indents.drop_last().contains(loc_at(s, run_end(s, st2.pos, CharClass::Space)).col),
    ensures
        block_lines(s, st) == Err::<ScanState, SpecLexError>(
            SpecLexError::IndentationError(loc_at(s, run_end(s, st2.pos, CharClass::Space))),
        ),
{
}

/// At the top level, a line after a statement whose width differs from that
/// of the first statement is rejected with an indentation error at that line.
pub proof fn lemma_top_level_width_kept(s: Seq<char>, st: ScanState, st1: ScanState)
    requires
        statement(s, st) == Ok::<ScanState, SpecLexError>(st1),
        run_end(s, st1.pos, CharClass::Blank) < s.len(),
        s[run_end(s, st1.pos, CharClass::Blank)] == '\n',
        run_end(s, run_end(s, st1.pos, CharClass::Blank) + 1, CharClass::Space) < s.len(),
        st1.indents.len() > 0,
        loc_at(s, run_end(s, run_end(s, st1.pos, CharClass::Blank) + 1, CharClass::Space)).col
            != st1.indents.last(),
    ensures
        top_level(s, st) == Err::<ScanState, SpecLexError>(
            SpecLexError::IndentationError(
                loc_at(s, run_end(s, run_end(s, st1.pos, CharClass::Blank) + 1, CharClass::Space)),
            ),
        ),
{
}

} // verus!
