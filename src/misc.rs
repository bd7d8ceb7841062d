//! Any single character and the end of input, as plain structs with
//! constructor functions.

use vstd::prelude::*;

use crate::error::{Outcome, Result};
use crate::parser::Parser;
use crate::utils::{any_outcome, at_end, end_outcome, first_char};

verus! {

/// A parser matching any single character, and outputting it.
#[derive(Clone, Copy)]
pub struct Any {}

impl Parser for Any {
    type Output = char;

    open spec fn inv(&self) -> bool {
        true
    }

    open spec fn outcome(&self, input: Seq<char>, o: Outcome<char>) -> bool {
        any_outcome(input, o)
    }

    fn p_arse<'a>(&self, tail: &'a str) -> (r: Result<'a, char>) {
        first_char(tail)
    }
}

/// A parser matching any single character.
pub fn any() -> (r: Any)
    ensures
        forall|input: Seq<char>, o: Outcome<char>| r.outcome(input, o) == any_outcome(input, o),
{
    Any {}
}

/// A parser matching the end of the input.
#[derive(Clone, Copy)]
pub struct EndOfFile {}

impl Parser for EndOfFile {
    type Output = ();

    open spec fn inv(&self) -> bool {
        true
    }

    open spec fn outcome(&self, input: Seq<char>, o: Outcome<()>) -> bool {
        end_outcome(input, o)
    }

    fn p_arse<'a>(&self, tail: &'a str) -> (r: Result<'a, ()>) {
        at_end(tail)
    }
}

/// A parser matching the end of the input.
pub fn eof() -> (r: EndOfFile)
    ensures
        forall|input: Seq<char>, o: Outcome<()>| r.outcome(input, o) == end_outcome(input, o),
{
    EndOfFile {}
}

} // verus!
