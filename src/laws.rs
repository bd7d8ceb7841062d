//! Laws that hold of every parser built with the operators.

use vstd::prelude::*;

use crate::error::{keeps_suffix, outcome_of, Outcome, Result};
use crate::literal::fresh_failure;
use crate::parser::Parser;
use crate::wrapper::{Named, NegativeLookahead, OneOrMore, Opt, Or, PositiveLookahead, ZeroOrMore};

verus! {

/// A failure to meet `expectation` that passed through the rules named in
/// `stack`.
pub open spec fn failure_with<T>(stack: Seq<Seq<char>>, expectation: Seq<char>) -> Outcome<T> {
    Outcome::Failed { stack, expectation }
}

/// An optional parser never fails: every outcome it may report is a success.
pub proof fn lemma_opt_never_fails<P: Parser>(p: Opt<P>, input: Seq<char>, o: Outcome<Option<P::Output>>)
    requires
        p.outcome(input, o),
    ensures
        (o is Parsed),
{
}

/// A repetition of zero or more never fails. It always ends: each
/// application it keeps consumed input, and one that consumes nothing ends it.
pub proof fn lemma_zore_never_fails<P: Parser>(p: ZeroOrMore<P>, input: Seq<char>, o: Outcome<Vec<P::Output>>)
    requires
        p.outcome(input, o),
    ensures
        (o is Parsed),
{
}

/// A repetition of one or more fails with a given error (its stack and its
/// expectation) exactly when a single application of the parser fails with
/// that error.
pub proof fn lemma_more_fails_iff_first_fails<P: Parser>(
    p: OneOrMore<P>,
    input: Seq<char>,
    stack: Seq<Seq<char>>,
    expectation: Seq<char>,
)
    ensures
        p.outcome(input, (Outcome::Failed { stack, expectation })) <==> p.parser.outcome(
            input,
            (Outcome::Failed { stack, expectation }),
        ),
{
    let failed = Outcome::<P::Output>::Failed { stack, expectation };
    if p.parser.outcome(input, failed) {
        assert(p.outcome(input, Outcome::Failed { stack, expectation }));
    }
}

/// One or more is a first success followed by zero or more: where a single
/// application succeeds with `first`, consuming `n`, and zero or more
/// applications from there give `rest`, consuming `m`, one or more gives
/// `first` then `rest`, consuming `n + m`.
pub proof fn lemma_more_is_first_then_zore<P: Parser>(
    p: OneOrMore<P>,
    input: Seq<char>,
    first: P::Output,
    n: nat,
    rest: Vec<P::Output>,
    m: nat,
    all: Vec<P::Output>,
)
    requires
        n <= input.len(),
        p.parser.outcome(input, (Outcome::Parsed { output: first, consumed: n })),
        (ZeroOrMore { parser: p.parser }).outcome(
            input.skip(n as int),
            (Outcome::Parsed { output: rest, consumed: m }),
        ),
        all@ == seq![first] + rest@,
    ensures
        p.outcome(input, (Outcome::Parsed { output: all, consumed: n + m })),
{
    assert(all@.skip(1) =~= rest@);
    assert(input.skip(n as int).skip(m as int) =~= input.skip((n + m) as int));
    assert(p.parser.outcome(input, Outcome::Parsed { output: first, consumed: n }));
}

/// Ordered choice is left-biased: where the first parser succeeds, the
/// choice reports exactly what the first parser reports, whatever the
/// second one would.
pub proof fn lemma_or_left_biased<P0: Parser, P1: Parser<Output = P0::Output>>(
    p: Or<P0, P1>,
    input: Seq<char>,
)
    requires
        forall|o0: Outcome<P0::Output>| #[trigger] p.parser_0.outcome(input, o0) ==> (o0 is Parsed),
    ensures
        forall|o: Outcome<P0::Output>| #[trigger] p.outcome(input, o) <==> p.parser_0.outcome(input, o),
{
    assert forall|o: Outcome<P0::Output>| #[trigger] p.outcome(input, o) <==> p.parser_0.outcome(
        input,
        o,
    ) by {
        if p.parser_0.outcome(input, o) {
            assert(o is Parsed);
        }
    }
}

/// Where the first alternative fails, ordered choice reports exactly what
/// the second one reports from the same position: the first error is
/// dropped, never merged.
pub proof fn lemma_or_falls_back<P0: Parser, P1: Parser<Output = P0::Output>>(
    p: Or<P0, P1>,
    input: Seq<char>,
)
    requires
        forall|o0: Outcome<P0::Output>| #[trigger] p.parser_0.outcome(input, o0) ==> (o0 is Failed),
        exists|o0: Outcome<P0::Output>| #[trigger] p.parser_0.outcome(input, o0),
    ensures
        forall|o: Outcome<P0::Output>| #[trigger] p.outcome(input, o) <==> p.parser_1.outcome(input, o),
{
    let o0 = choose|o0: Outcome<P0::Output>| #[trigger] p.parser_0.outcome(input, o0);
    assert forall|o: Outcome<P0::Output>| #[trigger] p.outcome(input, o) <==> p.parser_1.outcome(
        input,
        o,
    ) by {
        if p.parser_1.outcome(input, o) {
            assert(p.parser_0.outcome(input, o0));
        }
    }
}

/// A positive look-ahead never advances: where it succeeds, the rest it
/// returns is the whole input it was given.
pub proof fn lemma_ahead_keeps_position<'a, P: Parser>(
    p: PositiveLookahead<P>,
    input: Seq<char>,
    r: Result<'a, ()>,
)
    requires
        keeps_suffix(input, r),
        p.outcome(input, outcome_of(input, r)),
    ensures
        (r matches Ok((_, rest)) ==> rest@ == input),
{
    if let Ok((_, rest)) = r {
        assert(input.skip(0) =~= input);
    }
}

/// A negative look-ahead never advances: where it succeeds, the rest it
/// returns is the whole input it was given.
pub proof fn lemma_not_ahead_keeps_position<'a, P: Parser>(
    p: NegativeLookahead<P>,
    input: Seq<char>,
    r: Result<'a, ()>,
)
    requires
        keeps_suffix(input, r),
        p.outcome(input, outcome_of(input, r)),
    ensures
        (r matches Ok((_, rest)) ==> rest@ == input),
{
    if let Ok((_, rest)) = r {
        assert(input.skip(0) =~= input);
    }
}

/// Named rules stack up innermost first: wrapping a parser that fails with
/// a fresh error in rules named `x`, then `y`, then `z` fails with the stack
/// `[x, y, z]`, and with the expectation of the inner error unchanged.
pub proof fn lemma_named_stack_order<P: Parser>(
    z: Named<Named<Named<P>>>,
    input: Seq<char>,
    expectation: Seq<char>,
)
    requires
        forall|o: Outcome<P::Output>| #[trigger] z.parser.parser.parser.outcome(input, o) ==> (o
            == fresh_failure::<P::Output>(expectation)),
    ensures
        forall|o: Outcome<P::Output>| #[trigger] z.outcome(input, o) ==> (o
            == failure_with::<P::Output>(
            seq![z.parser.parser.name@, z.parser.name@, z.name@],
            expectation,
        )),
{
    let y = z.parser;
    let x = y.parser;
    assert forall|o: Outcome<P::Output>| #[trigger] z.outcome(input, o) implies o
        == failure_with::<P::Output>(seq![x.name@, y.name@, z.name@], expectation) by {
        let oy = choose|oy: Outcome<P::Output>| #[trigger] y.outcome(input, oy) && o == match oy {
            Outcome::Parsed { .. } => oy,
            Outcome::Failed { stack, expectation } => Outcome::<P::Output>::Failed { stack: stack.push(z.name@), expectation },
        };
        let ox = choose|ox: Outcome<P::Output>| #[trigger] x.outcome(input, ox) && oy == match ox {
            Outcome::Parsed { .. } => ox,
            Outcome::Failed { stack, expectation } => Outcome::<P::Output>::Failed { stack: stack.push(y.name@), expectation },
        };
        let op = choose|op: Outcome<P::Output>| #[trigger] x.parser.outcome(input, op) && ox == match op {
            Outcome::Parsed { .. } => op,
            Outcome::Failed { stack, expectation } => Outcome::<P::Output>::Failed { stack: stack.push(x.name@), expectation },
        };
        assert(seq![x.name@, y.name@, z.name@] =~= Seq::<Seq<char>>::empty().push(x.name@).push(
            y.name@,
        ).push(z.name@));
    }
}

} // verus!
