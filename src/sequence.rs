//! Sequences of up to 6 parsers, written as tuples.
//!
//! A sequence applies its parsers left to right, each from where the previous
//! one stopped, and outputs the tuple of their outputs. It fails with the
//! first failure, and outputs nothing then.

use vstd::prelude::*;

use crate::error::{outcome_of, Outcome, Result};
use crate::literal::fresh_failure;
use crate::parser::Parser;

verus! {

/// `o1` is what the last parser of a sequence reported: from where `o0`, the
/// outcome of the parsers before it, stopped if that succeeded. If `o0` failed,
/// the last parser never ran.
pub open spec fn follows<Q: Parser, A>(o0: Outcome<A>, q: Q, input: Seq<char>, o1: Outcome<Q::Output>) -> bool {
    match o0 {
        Outcome::Parsed { consumed, .. } => q.outcome(input.skip(consumed as int), o1),
        Outcome::Failed { .. } => o1 == fresh_failure::<Q::Output>(Seq::empty()),
    }
}

/// Where `rest` is a suffix of `mid` and `mid` one of `tail`, `rest` is one
/// of `tail`.
proof fn lemma_suffix_of_suffix(tail: Seq<char>, mid: Seq<char>, rest: Seq<char>)
    requires
        mid.len() <= tail.len(),
        mid == tail.skip(tail.len() - mid.len()),
        rest.len() <= mid.len(),
        rest == mid.skip(mid.len() - rest.len()),
    ensures
        rest == tail.skip(tail.len() - rest.len()),
{
    assert(rest =~= tail.skip(tail.len() - rest.len()));
}

impl<P0: Parser> Parser for (P0,) {
    type Output = P0::Output;

    open spec fn inv(&self) -> bool {
        self.0.inv()
    }

    open spec fn outcome(&self, input: Seq<char>, o: Outcome<P0::Output>) -> bool {
        self.0.outcome(input, o)
    }

    fn p_arse<'a>(&self, tail: &'a str) -> (r: Result<'a, P0::Output>) {
        self.0.p_arse(tail)
    }
}

/// The outcome of a sequence of 2: `o0` of its first 1, then `o1` of
/// the last one.
pub open spec fn joined2<T0, T1>(o0: Outcome<T0>, o1: Outcome<T1>) -> Outcome<(T0, T1)> {
    match o0 {
        Outcome::Failed { stack, expectation } => Outcome::Failed { stack, expectation },
        Outcome::Parsed { output: a, consumed: n } => match o1 {
            Outcome::Failed { stack, expectation } => Outcome::Failed { stack, expectation },
            Outcome::Parsed { output: b, consumed: m } => Outcome::Parsed {
                output: (a, b),
                consumed: n + m,
            },
        },
    }
}

impl<P0: Parser, P1: Parser> Parser for (P0, P1) {
    type Output = (P0::Output, P1::Output);

    open spec fn inv(&self) -> bool {
        self.0.inv() && self.1.inv()
    }

    open spec fn outcome(&self, input: Seq<char>, o: Outcome<(P0::Output, P1::Output)>) -> bool {
        exists|o0: Outcome<P0::Output>, o1: Outcome<P1::Output>|
            #![trigger self.0.outcome(input, o0), follows(o0, self.1, input, o1)]
            self.0.outcome(input, o0) && follows(o0, self.1, input, o1) && o == joined2(
                o0,
                o1,
            )
    }

    fn p_arse<'a>(&self, tail: &'a str) -> (r: Result<'a, (P0::Output, P1::Output)>) {
        let r0 = self.0.p_arse(tail);
        let ghost o0 = outcome_of(tail@, r0);
        proof {
            assert(self.0.outcome(tail@, o0));
        }
        match r0 {
            Err(e) => {
                let r: Result<'a, (P0::Output, P1::Output)> = Err(e);
                proof {
                    let o1 = fresh_failure::<P1::Output>(Seq::empty());
                    assert(follows(o0, self.1, tail@, o1));
                    assert(outcome_of(tail@, r) == joined2(o0, o1));
                }
                r
            },
            Ok((a, rest)) => {
                let r1 = self.1.p_arse(rest);
                let ghost o1 = outcome_of(rest@, r1);
                proof {
                    assert(rest@ == tail@.skip(o0->consumed as int));
                    assert(follows(o0, self.1, tail@, o1));
                }
                match r1 {
                    Err(e) => {
                        let r: Result<'a, (P0::Output, P1::Output)> = Err(e);
                        assert(outcome_of(tail@, r) == joined2(o0, o1));
                        r
                    },
                    Ok((b, rest1)) => {
                        proof {
                            lemma_suffix_of_suffix(tail@, rest@, rest1@);
                        }
                        let r: Result<'a, (P0::Output, P1::Output)> = Ok(((a, b), rest1));
                        assert(outcome_of(tail@, r) == joined2(o0, o1));
                        r
                    },
                }
            },
        }
    }
}

/// The outcome of a sequence of 3: `o0` of its first 2, then `o1` of
/// the last one.
pub open spec fn joined3<T0, T1, T2>(o0: Outcome<(T0, T1)>, o1: Outcome<T2>) -> Outcome<(T0, T1, T2)> {
    match o0 {
        Outcome::Failed { stack, expectation } => Outcome::Failed { stack, expectation },
        Outcome::Parsed { output: a, consumed: n } => match o1 {
            Outcome::Failed { stack, expectation } => Outcome::Failed { stack, expectation },
            Outcome::Parsed { output: b, consumed: m } => Outcome::Parsed {
                output: (a.0, a.1, b),
                consumed: n + m,
            },
        },
    }
}

impl<P0: Parser, P1: Parser, P2: Parser> Parser for (P0, P1, P2) {
    type Output = (P0::Output, P1::Output, P2::Output);

    open spec fn inv(&self) -> bool {
        self.0.inv() && self.1.inv() && self.2.inv()
    }

    open spec fn outcome(&self, input: Seq<char>, o: Outcome<(P0::Output, P1::Output, P2::Output)>) -> bool {
        exists|o0: Outcome<(P0::Output, P1::Output)>, o1: Outcome<P2::Output>|
            #![trigger (&self.0, &self.1).outcome(input, o0), follows(o0, self.2, input, o1)]
            (&self.0, &self.1).outcome(input, o0) && follows(o0, self.2, input, o1) && o == joined3(
                o0,
                o1,
            )
    }

    fn p_arse<'a>(&self, tail: &'a str) -> (r: Result<'a, (P0::Output, P1::Output, P2::Output)>) {
        let r0 = (&self.0, &self.1).p_arse(tail);
        let ghost o0 = outcome_of(tail@, r0);
        proof {
            assert((&self.0, &self.1).outcome(tail@, o0));
        }
        match r0 {
            Err(e) => {
                let r: Result<'a, (P0::Output, P1::Output, P2::Output)> = Err(e);
                proof {
                    let o1 = fresh_failure::<P2::Output>(Seq::empty());
                    assert(follows(o0, self.2, tail@, o1));
                    assert(outcome_of(tail@, r) == joined3(o0, o1));
                }
                r
            },
            Ok((a, rest)) => {
                let r1 = self.2.p_arse(rest);
                let ghost o1 = outcome_of(rest@, r1);
                proof {
                    assert(rest@ == tail@.skip(o0->consumed as int));
                    assert(follows(o0, self.2, tail@, o1));
                }
                match r1 {
                    Err(e) => {
                        let r: Result<'a, (P0::Output, P1::Output, P2::Output)> = Err(e);
                        assert(outcome_of(tail@, r) == joined3(o0, o1));
                        r
                    },
                    Ok((b, rest1)) => {
                        proof {
                            lemma_suffix_of_suffix(tail@, rest@, rest1@);
                        }
                        let r: Result<'a, (P0::Output, P1::Output, P2::Output)> = Ok(((a.0, a.1, b), rest1));
                        assert(outcome_of(tail@, r) == joined3(o0, o1));
                        r
                    },
                }
            },
        }
    }
}

/// The outcome of a sequence of 4: `o0` of its first 3, then `o1` of
/// the last one.
pub open spec fn joined4<T0, T1, T2, T3>(o0: Outcome<(T0, T1, T2)>, o1: Outcome<T3>) -> Outcome<(T0, T1, T2, T3)> {
    match o0 {
        Outcome::Failed { stack, expectation } => Outcome::Failed { stack, expectation },
        Outcome::Parsed { output: a, consumed: n } => match o1 {
            Outcome::Failed { stack, expectation } => Outcome::Failed { stack, expectation },
            Outcome::Parsed { output: b, consumed: m } => Outcome::Parsed {
                output: (a.0, a.1, a.2, b),
                consumed: n + m,
            },
        },
    }
}

impl<P0: Parser, P1: Parser, P2: Parser, P3: Parser> Parser for (P0, P1, P2, P3) {
    type Output = (P0::Output, P1::Output, P2::Output, P3::Output);

    open spec fn inv(&self) -> bool {
        self.0.inv() && self.1.inv() && self.2.inv() && self.3.inv()
    }

    open spec fn outcome(&self, input: Seq<char>, o: Outcome<(P0::Output, P1::Output, P2::Output, P3::Output)>) -> bool {
        exists|o0: Outcome<(P0::Output, P1::Output, P2::Output)>, o1: Outcome<P3::Output>|
            #![trigger (&self.0, &self.1, &self.2).outcome(input, o0), follows(o0, self.3, input, o1)]
            (&self.0, &self.1, &self.2).outcome(input, o0) && follows(o0, self.3, input, o1) && o == joined4(
                o0,
                o1,
            )
    }

    fn p_arse<'a>(&self, tail: &'a str) -> (r: Result<'a, (P0::Output, P1::Output, P2::Output, P3::Output)>) {
        let r0 = (&self.0, &self.1, &self.2).p_arse(tail);
        let ghost o0 = outcome_of(tail@, r0);
        proof {
            assert((&self.0, &self.1, &self.2).outcome(tail@, o0));
        }
        match r0 {
            Err(e) => {
                let r: Result<'a, (P0::Output, P1::Output, P2::Output, P3::Output)> = Err(e);
                proof {
                    let o1 = fresh_failure::<P3::Output>(Seq::empty());
                    assert(follows(o0, self.3, tail@, o1));
                    assert(outcome_of(tail@, r) == joined4(o0, o1));
                }
                r
            },
            Ok((a, rest)) => {
                let r1 = self.3.p_arse(rest);
                let ghost o1 = outcome_of(rest@, r1);
                proof {
                    assert(rest@ == tail@.skip(o0->consumed as int));
                    assert(follows(o0, self.3, tail@, o1));
                }
                match r1 {
                    Err(e) => {
                        let r: Result<'a, (P0::Output, P1::Output, P2::Output, P3::Output)> = Err(e);
                        assert(outcome_of(tail@, r) == joined4(o0, o1));
                        r
                    },
                    Ok((b, rest1)) => {
                        proof {
                            lemma_suffix_of_suffix(tail@, rest@, rest1@);
                        }
                        let r: Result<'a, (P0::Output, P1::Output, P2::Output, P3::Output)> = Ok(((a.0, a.1, a.2, b), rest1));
                        assert(outcome_of(tail@, r) == joined4(o0, o1));
                        r
                    },
                }
            },
        }
    }
}

/// The outcome of a sequence of 5: `o0` of its first 4, then `o1` of
/// the last one.
pub open spec fn joined5<T0, T1, T2, T3, T4>(o0: Outcome<(T0, T1, T2, T3)>, o1: Outcome<T4>) -> Outcome<(T0, T1, T2, T3, T4)> {
    match o0 {
        Outcome::Failed { stack, expectation } => Outcome::Failed { stack, expectation },
        Outcome::Parsed { output: a, consumed: n } => match o1 {
            Outcome::Failed { stack, expectation } => Outcome::Failed { stack, expectation },
            Outcome::Parsed { output: b, consumed: m } => Outcome::Parsed {
                output: (a.0, a.1, a.2, a.3, b),
                consumed: n + m,
            },
        },
    }
}

impl<P0: Parser, P1: Parser, P2: Parser, P3: Parser, P4: Parser> Parser for (P0, P1, P2, P3, P4) {
    type Output = (P0::Output, P1::Output, P2::Output, P3::Output, P4::Output);

    open spec fn inv(&self) -> bool {
        self.0.inv() && self.1.inv() && self.2.inv() && self.3.inv() && self.4.inv()
    }

    open spec fn outcome(&self, input: Seq<char>, o: Outcome<(P0::Output, P1::Output, P2::Output, P3::Output, P4::Output)>) -> bool {
        exists|o0: Outcome<(P0::Output, P1::Output, P2::Output, P3::Output)>, o1: Outcome<P4::Output>|
            #![trigger (&self.0, &self.1, &self.2, &self.3).outcome(input, o0), follows(o0, self.4, input, o1)]
            (&self.0, &self.1, &self.2, &self.3).outcome(input, o0) && follows(o0, self.4, input, o1) && o == joined5(
                o0,
                o1,
            )
    }

    fn p_arse<'a>(&self, tail: &'a str) -> (r: Result<'a, (P0::Output, P1::Output, P2::Output, P3::Output, P4::Output)>) {
        let r0 = (&self.0, &self.1, &self.2, &self.3).p_arse(tail);
        let ghost o0 = outcome_of(tail@, r0);
        proof {
            assert((&self.0, &self.1, &self.2, &self.3).outcome(tail@, o0));
        }
        match r0 {
            Err(e) => {
                let r: Result<'a, (P0::Output, P1::Output, P2::Output, P3::Output, P4::Output)> = Err(e);
                proof {
                    let o1 = fresh_failure::<P4::Output>(Seq::empty());
                    assert(follows(o0, self.4, tail@, o1));
                    assert(outcome_of(tail@, r) == joined5(o0, o1));
                }
                r
            },
            Ok((a, rest)) => {
                let r1 = self.4.p_arse(rest);
                let ghost o1 = outcome_of(rest@, r1);
                proof {
                    assert(rest@ == tail@.skip(o0->consumed as int));
                    assert(follows(o0, self.4, tail@, o1));
                }
                match r1 {
                    Err(e) => {
                        let r: Result<'a, (P0::Output, P1::Output, P2::Output, P3::Output, P4::Output)> = Err(e);
                        assert(outcome_of(tail@, r) == joined5(o0, o1));
                        r
                    },
                    Ok((b, rest1)) => {
                        proof {
                            lemma_suffix_of_suffix(tail@, rest@, rest1@);
                        }
                        let r: Result<'a, (P0::Output, P1::Output, P2::Output, P3::Output, P4::Output)> = Ok(((a.0, a.1, a.2, a.3, b), rest1));
                        assert(outcome_of(tail@, r) == joined5(o0, o1));
                        r
                    },
                }
            },
        }
    }
}

/// The outcome of a sequence of 6: `o0` of its first 5, then `o1` of
/// the last one.
pub open spec fn joined6<T0, T1, T2, T3, T4, T5>(o0: Outcome<(T0, T1, T2, T3, T4)>, o1: Outcome<T5>) -> Outcome<(T0, T1, T2, T3, T4, T5)> {
    match o0 {
        Outcome::Failed { stack, expectation } => Outcome::Failed { stack, expectation },
        Outcome::Parsed { output: a, consumed: n } => match o1 {
            Outcome::Failed { stack, expectation } => Outcome::Failed { stack, expectation },
            Outcome::Parsed { output: b, consumed: m } => Outcome::Parsed {
                output: (a.0, a.1, a.2, a.3, a.4, b),
                consumed: n + m,
            },
        },
    }
}

impl<P0: Parser, P1: Parser, P2: Parser, P3: Parser, P4: Parser, P5: Parser> Parser for (P0, P1, P2, P3, P4, P5) {
    type Output = (P0::Output, P1::Output, P2::Output, P3::Output, P4::Output, P5::Output);

    open spec fn inv(&self) -> bool {
        self.0.inv() && self.1.inv() && self.2.inv() && self.3.inv() && self.4.inv() && self.5.inv()
    }

    open spec fn outcome(&self, input: Seq<char>, o: Outcome<(P0::Output, P1::Output, P2::Output, P3::Output, P4::Output, P5::Output)>) -> bool {
        exists|o0: Outcome<(P0::Output, P1::Output, P2::Output, P3::Output, P4::Output)>, o1: Outcome<P5::Output>|
            #![trigger (&self.0, &self.1, &self.2, &self.3, &self.4).outcome(input, o0), follows(o0, self.5, input, o1)]
            (&self.0, &self.1, &self.2, &self.3, &self.4).outcome(input, o0) && follows(o0, self.5, input, o1) && o == joined6(
                o0,
                o1,
            )
    }

    fn p_arse<'a>(&self, tail: &'a str) -> (r: Result<'a, (P0::Output, P1::Output, P2::Output, P3::Output, P4::Output, P5::Output)>) {
        let r0 = (&self.0, &self.1, &self.2, &self.3, &self.4).p_arse(tail);
        let ghost o0 = outcome_of(tail@, r0);
        proof {
            assert((&self.0, &self.1, &self.2, &self.3, &self.4).outcome(tail@, o0));
        }
        match r0 {
            Err(e) => {
                let r: Result<'a, (P0::Output, P1::Output, P2::Output, P3::Output, P4::Output, P5::Output)> = Err(e);
                proof {
                    let o1 = fresh_failure::<P5::Output>(Seq::empty());
                    assert(follows(o0, self.5, tail@, o1));
                    assert(outcome_of(tail@, r) == joined6(o0, o1));
                }
                r
            },
            Ok((a, rest)) => {
                let r1 = self.5.p_arse(rest);
                let ghost o1 = outcome_of(rest@, r1);
                proof {
                    assert(rest@ == tail@.skip(o0->consumed as int));
                    assert(follows(o0, self.5, tail@, o1));
                }
                match r1 {
                    Err(e) => {
                        let r: Result<'a, (P0::Output, P1::Output, P2::Output, P3::Output, P4::Output, P5::Output)> = Err(e);
                        assert(outcome_of(tail@, r) == joined6(o0, o1));
                        r
                    },
                    Ok((b, rest1)) => {
                        proof {
                            lemma_suffix_of_suffix(tail@, rest@, rest1@);
                        }
                        let r: Result<'a, (P0::Output, P1::Output, P2::Output, P3::Output, P4::Output, P5::Output)> = Ok(((a.0, a.1, a.2, a.3, a.4, b), rest1));
                        assert(outcome_of(tail@, r) == joined6(o0, o1));
                        r
                    },
                }
            },
        }
    }
}

} // verus!
