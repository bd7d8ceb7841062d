//! Parsers defined by functions, including self-referential rules.

use vstd::prelude::*;

use crate::error::{keeps_suffix, outcome_of, Outcome, Result};
use crate::parser::Parser;

verus! {

/// A function from the input to a parse result: a rule written by hand.
pub trait Fun<T>: for<'a> Fn(&'a str) -> Result<'a, T> {
}

impl<F, T> Fun<T> for F where F: for<'a> Fn(&'a str) -> Result<'a, T> {
}

/// A parser that calls a function.
pub struct Function<F, T> {
    pub f: F,
    pub marker: core::marker::PhantomData<T>,
}

impl<F: Copy, T> Clone for Function<F, T> {
    fn clone(&self) -> (r: Self)
        ensures
            r == *self,
    {
        Function { f: self.f, marker: self.marker }
    }
}

impl<F: Copy, T> Copy for Function<F, T> {
}

/// What a function parser reports: a result of its function on the input.
pub open spec fn function_outcome<F: Fun<T>, T>(p: Function<F, T>, input: Seq<char>, o: Outcome<T>) -> bool {
    exists|t: &str, r: Result<T>|
        t@ == input && #[trigger] p.f.ensures((t,), r) && o == outcome_of(input, r)
}

impl<F: Fun<T>, T> Parser for Function<F, T> {
    type Output = T;

    /// The function can be called on every text and only ever consumes a
    /// prefix of it.
    open spec fn inv(&self) -> bool {
        &&& forall|t: &str| #[trigger] self.f.requires((t,))
        &&& forall|t: &str, r: Result<T>| #[trigger] self.f.ensures((t,), r) ==> keeps_suffix(t@, r)
    }

    open spec fn outcome(&self, input: Seq<char>, o: Outcome<T>) -> bool {
        function_outcome(*self, input, o)
    }

    fn p_arse<'a>(&self, tail: &'a str) -> (r: Result<'a, T>) {
        (self.f)(tail)
    }
}

/// What a function parser reports, spelled out: verified callers use this
/// to read the outcome that `p_arse` ensures.
pub proof fn lemma_function_outcome<F: Fun<T>, T>(
    p: Function<F, T>,
    input: Seq<char>,
    o: Outcome<T>,
)
    ensures
        p.outcome(input, o) == function_outcome(p, input, o),
{
}

/// A function parser is ready to parse once its function can be called on
/// every text and only ever consumes a prefix of it.
pub proof fn lemma_function_inv<F: Fun<T>, T>(p: Function<F, T>)
    requires
        forall|t: &str| #[trigger] p.f.requires((t,)),
        forall|t: &str, r: Result<T>| #[trigger] p.f.ensures((t,), r) ==> keeps_suffix(t@, r),
    ensures
        p.inv(),
{
}

/// Turns a function into a parser.
pub fn fun<F: for<'a> Fn(&'a str) -> Result<'a, T>, T>(f: F) -> (r: Function<F, T>)
    ensures
        r.f == f,
{
    Function { f, marker: core::marker::PhantomData }
}

/// A rule that refers to itself.
///
/// `step` parses one application of the rule; where the grammar recurses it
/// calls `this`, a handle that runs the rule again. `rule` states what the
/// rule may report, and `step` keeps to it wherever `this` does. A rule that
/// calls `this` again at the same position (left recursion) does not
/// terminate.
pub trait Rec: Sized + Copy {
    type Output;

    /// What the rule needs of its own data.
    open spec fn rule_inv(&self) -> bool {
        true
    }

    /// The outcomes that the rule may report on `input`.
    open spec fn rule(&self, input: Seq<char>, o: Outcome<Self::Output>) -> bool {
        true
    }

    fn step<'a>(&self, tail: &'a str, this: RecursiveFunction<Self>) -> (r: Result<'a, Self::Output>)
        requires
            self.rule_inv(),
            this.f == *self,
        ensures
            keeps_suffix(tail@, r),
            self.rule(tail@, outcome_of(tail@, r)),
    ;
}

/// The handle of a self-referential rule: parsing with it runs the rule,
/// handing it the handle again.
#[derive(Clone, Copy)]
pub struct RecursiveFunction<R: Rec> {
    pub f: R,
}

impl<R: Rec> Parser for RecursiveFunction<R> {
    type Output = R::Output;

    open spec fn inv(&self) -> bool {
        self.f.rule_inv()
    }

    open spec fn outcome(&self, input: Seq<char>, o: Outcome<R::Output>) -> bool {
        self.f.rule(input, o)
    }

    fn p_arse<'a>(&self, tail: &'a str) -> (r: Result<'a, R::Output>) {
        self.f.step(tail, *self)
    }
}

/// Turns a self-referential rule into a parser.
pub fn rec<R: Rec>(f: R) -> (r: RecursiveFunction<R>)
    ensures
        r.f == f,
{
    RecursiveFunction { f }
}

} // verus!
