//! The parsers that the operators of [`Parser`] build around other parsers.

use vstd::prelude::*;

use crate::error::{outcome_of, Error, Outcome, Result};
use crate::parser::Parser;

verus! {

/// `vals` are the outputs of successive applications of `p` from the start
/// of `s`, each of which consumed at least one character; together they
/// consumed `n` characters.
pub open spec fn repeated<P: Parser>(p: P, s: Seq<char>, vals: Seq<P::Output>, n: nat) -> bool
    decreases vals.len(),
{
    if vals.len() == 0 {
        n == 0
    } else {
        exists|m: nat, k: nat|
            #[trigger] p.outcome(s.skip(m as int), Outcome::Parsed { output: vals.last(), consumed: k })
                && repeated(p, s, vals.drop_last(), m) && 0 < k && m + k == n && n <= s.len()
    }
}

/// A repetition of `p` ends on `s`: one application fails there, or it
/// succeeds without consuming anything.
pub open spec fn stops<P: Parser>(p: P, s: Seq<char>) -> bool {
    exists|o: Outcome<P::Output>|
        #[trigger] p.outcome(s, o) && match o {
            Outcome::Parsed { consumed, .. } => consumed == 0,
            Outcome::Failed { .. } => true,
        }
}

/// Zero or more repetitions of a parser.
///
/// The repetition ends at the first application that fails, and also at the
/// first one that succeeds without consuming input: that one's output is
/// dropped. Without this guard a parser that can match the empty text would
/// repeat forever.
#[derive(Clone, Copy)]
pub struct ZeroOrMore<P: Parser> {
    pub parser: P,
}

impl<P: Parser> Parser for ZeroOrMore<P> {
    type Output = Vec<P::Output>;

    open spec fn inv(&self) -> bool {
        self.parser.inv()
    }

    open spec fn outcome(&self, input: Seq<char>, o: Outcome<Vec<P::Output>>) -> bool {
        match o {
            Outcome::Parsed { output, consumed } => repeated(self.parser, input, output@, consumed)
                && stops(self.parser, input.skip(consumed as int)),
            Outcome::Failed { .. } => false,
        }
    }

    fn p_arse<'a>(&self, tail: &'a str) -> (r: Result<'a, Vec<P::Output>>) {
        let (output, rest) = repeat(&self.parser, tail);
        Ok((output, rest))
    }
}

/// Applies `parser` from the start of `tail` for as long as it succeeds and
/// consumes input, collecting its outputs.
pub(crate) fn repeat<'a, P: Parser>(parser: &P, tail: &'a str) -> (r: (Vec<P::Output>, &'a str))
    requires
        parser.inv(),
    ensures
        r.1@.len() <= tail@.len(),
        r.1@ == tail@.skip(tail@.len() - r.1@.len()),
        repeated(*parser, tail@, r.0@, (tail@.len() - r.1@.len()) as nat),
        stops(*parser, r.1@),
{
    let mut output: Vec<P::Output> = Vec::new();
    let mut cur: &'a str = tail;
    loop
        invariant
            parser.inv(),
            cur@.len() <= tail@.len(),
            cur@ == tail@.skip(tail@.len() - cur@.len()),
            repeated(*parser, tail@, output@, (tail@.len() - cur@.len()) as nat),
        decreases cur@.len(),
    {
        let ghost before = (tail@.len() - cur@.len()) as nat;
        let step = parser.p_arse(cur);
        proof {
            assert((*parser).outcome(cur@, outcome_of(cur@, step)));
        }
        match step {
            Ok((v, rest)) => {
                if rest.unicode_len() < cur.unicode_len() {
                    proof {
                        let k = (cur@.len() - rest@.len()) as nat;
                        assert(rest@ =~= tail@.skip(tail@.len() - rest@.len()));
                        let vals = output@.push(v);
                        assert(vals.drop_last() =~= output@);
                        assert((*parser).outcome(
                            tail@.skip(before as int),
                            Outcome::Parsed { output: vals.last(), consumed: k },
                        ));
                        assert(repeated(*parser, tail@, vals, before + k));
                    }
                    output.push(v);
                    cur = rest;
                } else {
                    return (output, cur);
                }
            },
            Err(_) => {
                return (output, cur);
            },
        }
    }
}

/// One or more repetitions of a parser: the first application must succeed
/// (its output is kept even where it consumed nothing), the rest behave as
/// [`ZeroOrMore`].
#[derive(Clone, Copy)]
pub struct OneOrMore<P: Parser> {
    pub parser: P,
}

impl<P: Parser> Parser for OneOrMore<P> {
    type Output = Vec<P::Output>;

    open spec fn inv(&self) -> bool {
        self.parser.inv()
    }

    open spec fn outcome(&self, input: Seq<char>, o: Outcome<Vec<P::Output>>) -> bool {
        exists|o0: Outcome<P::Output>|
            #[trigger] self.parser.outcome(input, o0) && match o0 {
                Outcome::Failed { stack, expectation } => o == Outcome::<Vec<P::Output>>::Failed { stack, expectation },
                Outcome::Parsed { output: first, consumed: n } => match o {
                    Outcome::Parsed { output, consumed } => n <= consumed && output@.len() > 0
                        && output@[0] == first && repeated(
                        self.parser,
                        input.skip(n as int),
                        output@.skip(1),
                        (consumed - n) as nat,
                    ) && stops(self.parser, input.skip(consumed as int)),
                    Outcome::Failed { .. } => false,
                },
            }
    }

    fn p_arse<'a>(&self, tail: &'a str) -> (r: Result<'a, Vec<P::Output>>) {
        let first = self.parser.p_arse(tail);
        proof {
            assert(self.parser.outcome(tail@, outcome_of(tail@, first)));
        }
        match first {
            Err(e) => Err(e),
            Ok((v, rest)) => {
                let (vals, rest2) = repeat(&self.parser, rest);
                let mut output = vals;
                output.insert(0, v);
                proof {
                    assert(output@.skip(1) =~= vals@);
                    assert(rest2@ =~= tail@.skip(tail@.len() - rest2@.len()));
                    assert(tail@.skip((tail@.len() - rest2@.len()) as int) =~= rest@.skip(
                        rest@.len() - rest2@.len(),
                    ));
                }
                Ok((output, rest2))
            },
        }
    }
}

/// A parser whose output is replaced by `()`.
#[derive(Clone, Copy)]
pub struct Ignorant<P: Parser> {
    pub parser: P,
}

impl<P: Parser> Parser for Ignorant<P> {
    type Output = ();

    open spec fn inv(&self) -> bool {
        self.parser.inv()
    }

    open spec fn outcome(&self, input: Seq<char>, o: Outcome<()>) -> bool {
        exists|o0: Outcome<P::Output>|
            #[trigger] self.parser.outcome(input, o0) && o == match o0 {
                Outcome::Parsed { consumed, .. } => Outcome::Parsed { output: (), consumed },
                Outcome::Failed { stack, expectation } => Outcome::<()>::Failed { stack, expectation },
            }
    }

    fn p_arse<'a>(&self, tail: &'a str) -> (r: Result<'a, ()>) {
        let r0 = self.parser.p_arse(tail);
        proof {
            assert(self.parser.outcome(tail@, outcome_of(tail@, r0)));
        }
        match r0 {
            Ok((_, rest)) => Ok(((), rest)),
            Err(e) => Err(e),
        }
    }
}

/// An optional parser: `Some` output where the parser succeeds, else `None`
/// where it started.
#[derive(Clone, Copy)]
pub struct Opt<P: Parser> {
    pub parser: P,
}

impl<P: Parser> Parser for Opt<P> {
    type Output = Option<P::Output>;

    open spec fn inv(&self) -> bool {
        self.parser.inv()
    }

    open spec fn outcome(&self, input: Seq<char>, o: Outcome<Option<P::Output>>) -> bool {
        exists|o0: Outcome<P::Output>|
            #[trigger] self.parser.outcome(input, o0) && o == match o0 {
                Outcome::Parsed { output, consumed } => Outcome::Parsed {
                    output: Some(output),
                    consumed,
                },
                Outcome::Failed { .. } => Outcome::Parsed { output: None, consumed: 0 },
            }
    }

    fn p_arse<'a>(&self, tail: &'a str) -> (r: Result<'a, Option<P::Output>>) {
        let r0 = self.parser.p_arse(tail);
        proof {
            assert(self.parser.outcome(tail@, outcome_of(tail@, r0)));
            assert(tail@ =~= tail@.skip(0));
        }
        match r0 {
            Ok((v, rest)) => Ok((Some(v), rest)),
            Err(_) => Ok((None, tail)),
        }
    }
}


/// A parser whose output is mapped through `f`.
pub struct Mapping<P: Parser, F, U> {
    pub parser: P,
    pub f: F,
    pub marker: core::marker::PhantomData<U>,
}

impl<P: Parser + Copy, F: Copy, U> Clone for Mapping<P, F, U> {
    fn clone(&self) -> (r: Self)
        ensures
            r == *self,
    {
        Mapping { parser: self.parser, f: self.f, marker: self.marker }
    }
}

impl<P: Parser + Copy, F: Copy, U> Copy for Mapping<P, F, U> {
}

/// What a mapping reports: the parser's failure unchanged, or its success
/// with the output replaced by a result of `f` on it.
pub open spec fn mapped_outcome<P: Parser, F: Fn(P::Output) -> U + Copy, U>(p: Mapping<P, F, U>, input: Seq<char>, o: Outcome<U>) -> bool {
    exists|o0: Outcome<P::Output>|
        #[trigger] p.parser.outcome(input, o0) && match o0 {
            Outcome::Parsed { output: v, consumed: n } => match o {
                Outcome::Parsed { output: u, consumed } => consumed == n && p.f.ensures(
                    (v,),
                    u,
                ),
                Outcome::Failed { .. } => false,
            },
            Outcome::Failed { stack, expectation } => o == Outcome::<U>::Failed { stack, expectation },
        }
}

impl<P: Parser, F: Fn(P::Output) -> U + Copy, U> Parser for Mapping<P, F, U> {
    type Output = U;

    open spec fn inv(&self) -> bool {
        self.parser.inv() && forall|v: P::Output| #[trigger] self.f.requires((v,))
    }

    open spec fn outcome(&self, input: Seq<char>, o: Outcome<U>) -> bool {
        mapped_outcome(*self, input, o)
    }

    fn p_arse<'a>(&self, tail: &'a str) -> (r: Result<'a, U>) {
        let r0 = self.parser.p_arse(tail);
        proof {
            assert(self.parser.outcome(tail@, outcome_of(tail@, r0)));
        }
        match r0 {
            Ok((v, rest)) => {
                let u = (self.f)(v);
                Ok((u, rest))
            },
            Err(e) => Err(e),
        }
    }
}

/// `u` is a possible result of `f` on a text whose characters are `text`.
pub open spec fn maps_text<F: for<'b> Fn(&'b str) -> T, T>(f: F, text: Seq<char>, u: T) -> bool {
    exists|t: &str| t@ == text && #[trigger] f.ensures((t,), u)
}

/// A mapping is ready to parse once its parser is and `f` accepts every
/// output of it. Verified callers use this to meet `p_arse`'s requirement
/// on a mapping built from a closure or a function.
pub proof fn lemma_mapping_inv<P: Parser, F: Fn(P::Output) -> U + Copy, U>(m: Mapping<P, F, U>)
    requires
        m.parser.inv(),
        forall|v: P::Output| #[trigger] m.f.requires((v,)),
    ensures
        m.inv(),
{
}

/// What a mapping of consumed text reports, spelled out: verified callers
/// use this to read the outcome that `p_arse` ensures.
pub proof fn lemma_map_str_outcome<P: Parser, F: for<'b> Fn(&'b str) -> T + Copy, T>(
    m: MapStr<P, F, T>,
    input: Seq<char>,
    o: Outcome<T>,
)
    ensures
        m.outcome(input, o) == text_mapped_outcome(m, input, o),
{
}

/// A mapping of consumed text is ready to parse once its parser is and `f`
/// accepts every text.
pub proof fn lemma_map_str_inv<P: Parser, F: for<'b> Fn(&'b str) -> T + Copy, T>(m: MapStr<P, F, T>)
    requires
        m.parser.inv(),
        forall|t: &str| #[trigger] m.f.requires((t,)),
    ensures
        m.inv(),
{
}

/// What a mapping reports, spelled out: verified callers use this to read
/// the outcome that `p_arse` ensures.
pub proof fn lemma_mapping_outcome<P: Parser, F: Fn(P::Output) -> U + Copy, U>(
    m: Mapping<P, F, U>,
    input: Seq<char>,
    o: Outcome<U>,
)
    ensures
        m.outcome(input, o) == mapped_outcome(m, input, o),
{
}

/// A parser whose output is `f` applied to the text it consumed.
pub struct MapStr<P: Parser, F, T> {
    pub parser: P,
    pub f: F,
    pub marker: core::marker::PhantomData<T>,
}

impl<P: Parser + Copy, F: Copy, T> Clone for MapStr<P, F, T> {
    fn clone(&self) -> (r: Self)
        ensures
            r == *self,
    {
        MapStr { parser: self.parser, f: self.f, marker: self.marker }
    }
}

impl<P: Parser + Copy, F: Copy, T> Copy for MapStr<P, F, T> {
}

/// What a mapping of consumed text reports: the parser's failure unchanged,
/// or its success with the output replaced by a result of `f` on the text
/// it consumed.
pub open spec fn text_mapped_outcome<P: Parser, F: for<'b> Fn(&'b str) -> T + Copy, T>(p: MapStr<P, F, T>, input: Seq<char>, o: Outcome<T>) -> bool {
    exists|o0: Outcome<P::Output>|
        #[trigger] p.parser.outcome(input, o0) && match o0 {
            Outcome::Parsed { consumed: n, .. } => match o {
                Outcome::Parsed { output: u, consumed } => consumed == n && maps_text(
                    p.f,
                    input.take(n as int),
                    u,
                ),
                Outcome::Failed { .. } => false,
            },
            Outcome::Failed { stack, expectation } => o == Outcome::<T>::Failed { stack, expectation },
        }
}

impl<P: Parser, F: for<'b> Fn(&'b str) -> T + Copy, T> Parser for MapStr<P, F, T> {
    type Output = T;

    open spec fn inv(&self) -> bool {
        self.parser.inv() && forall|t: &str| #[trigger] self.f.requires((t,))
    }

    open spec fn outcome(&self, input: Seq<char>, o: Outcome<T>) -> bool {
        text_mapped_outcome(*self, input, o)
    }

    fn p_arse<'a>(&self, tail: &'a str) -> (r: Result<'a, T>) {
        let r0 = self.parser.p_arse(tail);
        proof {
            assert(self.parser.outcome(tail@, outcome_of(tail@, r0)));
        }
        match r0 {
            Ok((_, rest)) => {
                let n = tail.unicode_len() - rest.unicode_len();
                let captured = tail.substring_char(0, n);
                let u = (self.f)(captured);
                proof {
                    assert(captured@ =~= tail@.take(n as int));
                    assert(self.f.ensures((captured,), u));
                    let o0 = outcome_of(tail@, r0);
                    assert(self.parser.outcome(tail@, o0));
                    assert(maps_text(self.f, tail@.take(n as int), u));
                }
                Ok((u, rest))
            },
            Err(e) => Err(e),
        }
    }
}

/// Ordered choice: the first parser's result where it succeeds, else the
/// second parser's, tried from the same position.
#[derive(Clone, Copy)]
pub struct Or<P0, P1> {
    pub parser_0: P0,
    pub parser_1: P1,
}

impl<P0: Parser, P1: Parser<Output = P0::Output>> Parser for Or<P0, P1> {
    type Output = P0::Output;

    open spec fn inv(&self) -> bool {
        self.parser_0.inv() && self.parser_1.inv()
    }

    open spec fn outcome(&self, input: Seq<char>, o: Outcome<P0::Output>) -> bool {
        exists|o0: Outcome<P0::Output>|
            #[trigger] self.parser_0.outcome(input, o0) && match o0 {
                Outcome::Parsed { .. } => o == o0,
                Outcome::Failed { .. } => self.parser_1.outcome(input, o),
            }
    }

    fn p_arse<'a>(&self, tail: &'a str) -> (r: Result<'a, P0::Output>) {
        let r0 = self.parser_0.p_arse(tail);
        proof {
            assert(self.parser_0.outcome(tail@, outcome_of(tail@, r0)));
        }
        match r0 {
            Ok((v, rest)) => Ok((v, rest)),
            Err(_) => self.parser_1.p_arse(tail),
        }
    }
}

/// A negative look-ahead: succeeds with `()`, consuming nothing, iff the
/// parser fails from the current position.
#[derive(Clone, Copy)]
pub struct NegativeLookahead<P: Parser> {
    pub parser: P,
}

impl<P: Parser> Parser for NegativeLookahead<P> {
    type Output = ();

    open spec fn inv(&self) -> bool {
        self.parser.inv()
    }

    open spec fn outcome(&self, input: Seq<char>, o: Outcome<()>) -> bool {
        exists|o0: Outcome<P::Output>|
            #[trigger] self.parser.outcome(input, o0) && o == match o0 {
                Outcome::Parsed { .. } => Outcome::<()>::Failed {
                    stack: Seq::empty(),
                    expectation: "negative lookahead"@,
                },
                Outcome::Failed { .. } => Outcome::Parsed { output: (), consumed: 0 },
            }
    }

    fn p_arse<'a>(&self, tail: &'a str) -> (r: Result<'a, ()>) {
        let r0 = self.parser.p_arse(tail);
        proof {
            assert(self.parser.outcome(tail@, outcome_of(tail@, r0)));
            assert(tail@ =~= tail@.skip(0));
        }
        match r0 {
            Ok(_) => Err(Error::expecting(String::from_str("negative lookahead"))),
            Err(_) => Ok(((), tail)),
        }
    }
}

/// A positive look-ahead: succeeds with `()`, consuming nothing, iff the
/// parser succeeds from the current position.
#[derive(Clone, Copy)]
pub struct PositiveLookahead<P: Parser> {
    pub parser: P,
}

impl<P: Parser> Parser for PositiveLookahead<P> {
    type Output = ();

    open spec fn inv(&self) -> bool {
        self.parser.inv()
    }

    open spec fn outcome(&self, input: Seq<char>, o: Outcome<()>) -> bool {
        exists|o0: Outcome<P::Output>|
            #[trigger] self.parser.outcome(input, o0) && o == match o0 {
                Outcome::Parsed { .. } => Outcome::Parsed { output: (), consumed: 0 },
                Outcome::Failed { .. } => Outcome::<()>::Failed {
                    stack: Seq::empty(),
                    expectation: "positive lookahead"@,
                },
            }
    }

    fn p_arse<'a>(&self, tail: &'a str) -> (r: Result<'a, ()>) {
        let r0 = self.parser.p_arse(tail);
        proof {
            assert(self.parser.outcome(tail@, outcome_of(tail@, r0)));
            assert(tail@ =~= tail@.skip(0));
        }
        match r0 {
            Ok(_) => Ok(((), tail)),
            Err(_) => Err(Error::expecting(String::from_str("positive lookahead"))),
        }
    }
}

/// A named rule: transparent on success; a failure leaving it gets `name`
/// pushed on its rule stack.
#[derive(Clone, Copy)]
pub struct Named<P: Parser> {
    pub parser: P,
    pub name: &'static str,
}

impl<P: Parser> Parser for Named<P> {
    type Output = P::Output;

    open spec fn inv(&self) -> bool {
        self.parser.inv()
    }

    open spec fn outcome(&self, input: Seq<char>, o: Outcome<P::Output>) -> bool {
        exists|o0: Outcome<P::Output>|
            #[trigger] self.parser.outcome(input, o0) && o == match o0 {
                Outcome::Parsed { .. } => o0,
                Outcome::Failed { stack, expectation } => Outcome::<P::Output>::Failed {
                    stack: stack.push(self.name@),
                    expectation,
                },
            }
    }

    fn p_arse<'a>(&self, tail: &'a str) -> (r: Result<'a, P::Output>) {
        let r0 = self.parser.p_arse(tail);
        proof {
            assert(self.parser.outcome(tail@, outcome_of(tail@, r0)));
        }
        match r0 {
            Ok((v, rest)) => Ok((v, rest)),
            Err(e) => Err(e.push(self.name)),
        }
    }
}

} // verus!
