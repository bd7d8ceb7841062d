//! The error a failed parse reports, and the model of a parse's outcome.

use vstd::prelude::*;

verus! {

/// What a parser reported: the output and the number of characters it
/// consumed, or a failure: the names of the rules it passed through and the
/// text of what was expected.
pub enum Outcome<T> {
    Parsed { output: T, consumed: nat },
    Failed { stack: Seq<Seq<char>>, expectation: Seq<char> },
}

/// The names of a rule stack, as text.
pub open spec fn names_view(stack: Seq<&'static str>) -> Seq<Seq<char>> {
    stack.map_values(|name: &'static str| name@)
}

/// A failed expectation, with the names of the rules that it passed through
/// on its way out, innermost first.
#[derive(Debug)]
pub struct Error {
    pub stack: Vec<&'static str>,
    pub expectation: String,
}

impl Error {
    /// The names of the rules this error passed through, as text.
    pub open spec fn stack_view(&self) -> Seq<Seq<char>> {
        names_view(self.stack@)
    }

    /// A fresh error: `expectation` was not met, and no rule has been left yet.
    pub fn expecting(expectation: String) -> (e: Self)
        ensures
            e.stack_view() == Seq::<Seq<char>>::empty(),
            e.expectation@ == expectation@,
    {
        let e = Error { stack: Vec::new(), expectation };
        assert(e.stack_view() =~= Seq::<Seq<char>>::empty());
        e
    }

    /// The same error, once it has left the rule called `name`.
    pub fn push(self, name: &'static str) -> (e: Self)
        ensures
            e.stack_view() == self.stack_view().push(name@),
            e.expectation@ == self.expectation@,
    {
        let mut e = self;
        e.stack.push(name);
        assert(e.stack_view() =~= self.stack_view().push(name@));
        e
    }
}

/// What a parse returns: the output and the rest of the input, or an error.
pub type Result<'a, T> = core::result::Result<(T, &'a str), Error>;

/// A successful result's rest is a suffix of the input it was given.
pub open spec fn keeps_suffix<T>(input: Seq<char>, r: Result<T>) -> bool {
    match r {
        Ok((_, rest)) => rest@.len() <= input.len() && rest@ == input.skip(
            input.len() - rest@.len(),
        ),
        Err(_) => true,
    }
}

/// The outcome that a result reports, for the input it was given.
pub open spec fn outcome_of<T>(input: Seq<char>, r: Result<T>) -> Outcome<T> {
    match r {
        Ok((v, rest)) => Outcome::Parsed {
            output: v,
            consumed: (input.len() - rest@.len()) as nat,
        },
        Err(e) => Outcome::Failed { stack: e.stack_view(), expectation: e.expectation@ },
    }
}

} // verus!
