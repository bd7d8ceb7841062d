//! A single character picked by a predicate.

use vstd::prelude::*;

use crate::error::{Error, Outcome, Result};
use crate::literal::{fresh_failure, skip_chars};
use crate::parser::Parser;

verus! {

/// A parser of one character for which `pattern` holds; it outputs the
/// matched text.
#[derive(Clone, Copy)]
pub struct Pattern<F> {
    pub pattern: F,
}

/// What a pattern reports: the first character as text where `pattern`
/// holds of it, else a fresh failure.
pub open spec fn pattern_outcome<F: Fn(char) -> bool + Copy>(
    p: Pattern<F>,
    input: Seq<char>,
    o: Outcome<String>,
) -> bool {
    if input.len() == 0 {
        o == fresh_failure::<String>("pattern"@)
    } else {
        exists|b: bool|
            #[trigger] p.pattern.ensures((input[0],), b) && if b {
                o is Parsed && o->consumed == 1 && o->output@ == input.take(1)
            } else {
                o == fresh_failure::<String>("pattern"@)
            }
    }
}

impl<F: Fn(char) -> bool + Copy> Parser for Pattern<F> {
    type Output = String;

    open spec fn inv(&self) -> bool {
        forall|c: char| #[trigger] self.pattern.requires((c,))
    }

    open spec fn outcome(&self, input: Seq<char>, o: Outcome<String>) -> bool {
        pattern_outcome(*self, input, o)
    }

    fn p_arse<'a>(&self, tail: &'a str) -> (r: Result<'a, String>) {
        if tail.unicode_len() > 0 {
            let first = tail.get_char(0);
            let matched = (self.pattern)(first);
            if matched {
                let head = tail.substring_char(0, 1);
                let rest = skip_chars(tail, 1);
                let text = String::from_str(head);
                proof {
                    assert(head@ =~= tail@.take(1));
                    assert(rest@ =~= tail@.skip(tail@.len() - rest@.len()));
                }
                return Ok((text, rest));
            }
        }
        Err(Error::expecting(String::from_str("pattern")))
    }
}

/// What a pattern reports, spelled out: verified callers use this to read
/// the outcome that `p_arse` ensures.
pub proof fn lemma_pattern_outcome<F: Fn(char) -> bool + Copy>(
    p: Pattern<F>,
    input: Seq<char>,
    o: Outcome<String>,
)
    ensures
        p.outcome(input, o) == pattern_outcome(p, input, o),
{
}

/// A pattern is ready to parse once its predicate accepts every character.
pub proof fn lemma_pattern_inv<F: Fn(char) -> bool + Copy>(p: Pattern<F>)
    requires
        forall|c: char| #[trigger] p.pattern.requires((c,)),
    ensures
        p.inv(),
{
}

/// A parser of one character for which `pattern` holds.
pub fn pat<F: Fn(char) -> bool + Copy>(pattern: F) -> (r: Pattern<F>)
    ensures
        r.pattern == pattern,
{
    Pattern { pattern }
}

} // verus!
