//! The parsing contract that every parser meets, and the operators that
//! combine parsers.

use vstd::prelude::*;

use crate::error::{keeps_suffix, outcome_of, Outcome, Result};
use crate::wrapper::{
    Ignorant, MapStr, Mapping, Named, NegativeLookahead, OneOrMore, Opt, Or, PositiveLookahead,
    ZeroOrMore,
};

verus! {

/// A parser: a description of how to consume a prefix of the input.
///
/// `outcome(input, o)` says that `o` is a possible outcome of parsing
/// `input`; `p_arse` always reports one of them. For the built-in parsers
/// on plain values there is exactly one. `inv` is what the parser needs of
/// the functions it holds. A parser that states neither needs nothing and
/// may report any outcome.
pub trait Parser: Sized {
    type Output;

    open spec fn inv(&self) -> bool {
        true
    }

    open spec fn outcome(&self, input: Seq<char>, o: Outcome<Self::Output>) -> bool {
        true
    }

    /// Attempts to parse the input. On success the rest of the input is a
    /// suffix of `tail`: nothing is invented and only a prefix is consumed.
    fn p_arse<'a>(&self, tail: &'a str) -> (r: Result<'a, Self::Output>)
        requires
            self.inv(),
        ensures
            keeps_suffix(tail@, r),
            self.outcome(tail@, outcome_of(tail@, r)),
    ;

    /// Maps the parser's output through `f`.
    fn map<F, U>(self, f: F) -> (r: Mapping<Self, F, U>)
        where
            F: Fn(Self::Output) -> U + Copy,
        ensures
            r.parser == self,
            r.f == f,
    {
        Mapping { parser: self, f, marker: core::marker::PhantomData }
    }

    /// Maps the text that the parser consumed through `f`.
    fn maps<F, T>(self, f: F) -> (r: MapStr<Self, F, T>)
        where
            F: for<'b> Fn(&'b str) -> T + Copy,
        ensures
            r.parser == self,
            r.f == f,
    {
        MapStr { parser: self, f, marker: core::marker::PhantomData }
    }

    /// Replaces the parser's output by `()`.
    fn ignore(self) -> (r: Ignorant<Self>)
        ensures
            r.parser == self,
    {
        Ignorant { parser: self }
    }

    /// Ordered choice: this parser, or else `other` from the same position.
    fn or<Q>(self, other: Q) -> (r: Or<Self, Q>)
        ensures
            r.parser_0 == self,
            r.parser_1 == other,
    {
        Or { parser_0: self, parser_1: other }
    }

    /// Makes the parser optional; the result never fails.
    fn opt(self) -> (r: Opt<Self>)
        ensures
            r.parser == self,
    {
        Opt { parser: self }
    }

    /// Makes the parser match zero or more times; the result never fails.
    fn zore(self) -> (r: ZeroOrMore<Self>)
        ensures
            r.parser == self,
    {
        ZeroOrMore { parser: self }
    }

    /// Makes the parser match one or more times.
    fn more(self) -> (r: OneOrMore<Self>)
        ensures
            r.parser == self,
    {
        OneOrMore { parser: self }
    }

    /// A negative look-ahead: succeeds, consuming nothing, iff this parser fails.
    fn not_ahead(self) -> (r: NegativeLookahead<Self>)
        ensures
            r.parser == self,
    {
        NegativeLookahead { parser: self }
    }

    /// A positive look-ahead: succeeds, consuming nothing, iff this parser succeeds.
    fn ahead(self) -> (r: PositiveLookahead<Self>)
        ensures
            r.parser == self,
    {
        PositiveLookahead { parser: self }
    }

    /// Labels the parser: a failure leaving it carries `name` on its stack.
    fn named(self, name: &'static str) -> (r: Named<Self>)
        ensures
            r.parser == self,
            r.name == name,
    {
        Named { parser: self, name }
    }
}

/// A reference to a parser parses as the parser does.
impl<'r, P: Parser> Parser for &'r P {
    type Output = P::Output;

    open spec fn inv(&self) -> bool {
        (**self).inv()
    }

    open spec fn outcome(&self, input: Seq<char>, o: Outcome<P::Output>) -> bool {
        (**self).outcome(input, o)
    }

    fn p_arse<'a>(&self, tail: &'a str) -> (r: Result<'a, P::Output>) {
        (**self).p_arse(tail)
    }
}

} // verus!
