//! Basic utilities: any single character, and the end of input.
#![allow(non_camel_case_types)]

use vstd::prelude::*;

use crate::error::{keeps_suffix, outcome_of, Error, Outcome, Result};
use crate::literal::{fresh_failure, skip_chars};
use crate::parser::Parser;

verus! {

/// What a parser of any single character reports on `input`.
pub open spec fn any_outcome(input: Seq<char>, o: Outcome<char>) -> bool {
    if input.len() > 0 {
        o == Outcome::Parsed { output: input[0], consumed: 1 }
    } else {
        o == fresh_failure::<char>("any"@)
    }
}

/// What a parser of the end of input reports on `input`.
pub open spec fn end_outcome(input: Seq<char>, o: Outcome<()>) -> bool {
    if input.len() == 0 {
        o == Outcome::Parsed { output: (), consumed: 0 }
    } else {
        o == fresh_failure::<()>("eoi"@)
    }
}

/// Takes the first character of `tail`, if there is one.
pub(crate) fn first_char<'a>(tail: &'a str) -> (r: Result<'a, char>)
    ensures
        keeps_suffix(tail@, r),
        any_outcome(tail@, outcome_of(tail@, r)),
{
    if tail.unicode_len() > 0 {
        let first = tail.get_char(0);
        let rest = skip_chars(tail, 1);
        assert(rest@ =~= tail@.skip(tail@.len() - rest@.len()));
        Ok((first, rest))
    } else {
        Err(Error::expecting(String::from_str("any")))
    }
}

/// Checks that `tail` is empty.
pub(crate) fn at_end<'a>(tail: &'a str) -> (r: Result<'a, ()>)
    ensures
        keeps_suffix(tail@, r),
        end_outcome(tail@, outcome_of(tail@, r)),
{
    if tail.unicode_len() == 0 {
        assert(tail@ =~= tail@.skip(0));
        Ok(((), tail))
    } else {
        Err(Error::expecting(String::from_str("eoi")))
    }
}

/// A parser matching any single character, and outputting it.
#[derive(Clone, Copy)]
pub struct any();

impl Parser for any {
    type Output = char;

    open spec fn inv(&self) -> bool {
        true
    }

    open spec fn outcome(&self, input: Seq<char>, o: Outcome<char>) -> bool {
        any_outcome(input, o)
    }

    fn p_arse<'a>(&self, tail: &'a str) -> (r: Result<'a, char>) {
        first_char(tail)
    }
}

/// A parser matching the end of input: used to make sure that the whole
/// input was matched.
#[derive(Clone, Copy)]
pub struct eoi();

impl Parser for eoi {
    type Output = ();

    open spec fn inv(&self) -> bool {
        true
    }

    open spec fn outcome(&self, input: Seq<char>, o: Outcome<()>) -> bool {
        end_outcome(input, o)
    }

    fn p_arse<'a>(&self, tail: &'a str) -> (r: Result<'a, ()>) {
        at_end(tail)
    }
}

} // verus!
