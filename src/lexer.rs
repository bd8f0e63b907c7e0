//! Performs lexical analysis on a string.
//!
//! [`grammar`] defines, as mathematical functions, what the scanner returns
//! for every input; the executable scanner is proved to compute exactly that.

pub mod token;
pub mod grammar;
pub mod cursor;
mod lexemes;
mod scanner;
mod statements;

use vstd::prelude::*;
use crate::lexer::cursor::Cursor;
use crate::lexer::grammar::{
    accounted, char_count, in_class, lemma_run_end, lex_result, loc_at, paren_balance, well_nested,
    CharClass, ScanState,
};
use crate::lexer::token::{tokens_view, LexError, Token};

verus! {

/// The characters of `source`, in order.
fn chars_of(source: &str) -> (r: Vec<char>)
    ensures
        r@ == source@,
{
    let mut v: Vec<char> = Vec::new();
    for c in it: source.chars()
        invariant
            v@ == it.seq().take(it.index() as int),
    {
        v.push(c);
    }
    assert(v@ =~= source@);
    v
}

/// Scanning depends on the text alone: the same text always yields the same
/// tokens, or the same error.
pub proof fn lemma_lex_deterministic(a: Seq<char>, b: Seq<char>)
    requires
        a == b,
    ensures
        lex_result(a) == lex_result(b),
{
}

/// Whether every character of `s` is whitespace.
pub open spec fn all_whitespace(s: Seq<char>) -> bool {
    forall|i: int| 0 <= i < s.len() ==> in_class(#[trigger] s[i], CharClass::Space)
}

/// Scans `input` into tokens, or returns the first error.
///
/// The result is exactly [`lex_result`]. A successful scan produces no
/// tokens only for an input of whitespace alone, and its parentheses are
/// balanced: no prefix of the tokens closes more than it opens, and the
/// whole closes all it opens. Nothing is dropped: each double quote and
/// parenthesis of the input stands in a token, either itself or within the
/// text of a string literal. So an input with an odd number of double
/// quotes, as one with a string left open, is rejected.
pub fn lex(input: &str) -> (r: Result<Vec<Token>, LexError>)
    ensures
        match lex_result(input@) {
            Ok(ts) => r matches Ok(v) && tokens_view(v@) == ts,
            Err(e) => r matches Err(x) && x@ == e,
        },
        r matches Ok(v) ==> (v@.len() == 0 <==> all_whitespace(input@)),
        r matches Ok(v) ==> paren_balance(tokens_view(v@)) == 0 && well_nested(tokens_view(v@)),
        r matches Ok(v) ==> accounted(input@, tokens_view(v@)),
        char_count(input@, '"') % 2 == 1 ==> r is Err,
{
    let mut c = Cursor::new(chars_of(input));
    let ghost s = input@;
    c.skip(CharClass::Space);
    proof {
        lemma_run_end(s, 0, CharClass::Space);
    }
    if c.pos >= c.chars.len() {
        assert(s.take(s.len() as int) =~= s);
        return Ok(c.output);
    }
    proof {
        assert(!in_class(s[c.pos as int], CharClass::Space));
    }
    let w = c.loc.col;
    c.indents.push(w);
    let ghost start = c.state();
    assert(start == ScanState {
        pos: start.pos,
        depth: 0,
        indents: seq![loc_at(s, start.pos).col],
        tokens: seq![],
    });
    match c.lex_top_level() {
        Err(x) => Err(x),
        Ok(()) => {
            assert(s.take(s.len() as int) =~= s);
            Ok(c.output)
        },
    }
}

} // verus!
