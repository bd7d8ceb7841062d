//! Characters, character ranges and literal text.

use vstd::prelude::*;

use crate::error::{Error, Outcome, Result};
use crate::parser::Parser;

verus! {

/// The outcome of a failure to meet `expectation` that no rule has seen yet.
pub open spec fn fresh_failure<T>(expectation: Seq<char>) -> Outcome<T> {
    Outcome::Failed { stack: Seq::empty(), expectation }
}

/// `<what> '<item>'`: the text of an expectation.
pub open spec fn quoted_text(what: Seq<char>, item: Seq<char>) -> Seq<char> {
    what + seq![' ', '\''] + item + seq!['\'']
}

/// The expectation of the character `c`.
pub open spec fn char_text(c: char) -> Seq<char> {
    quoted_text("char"@, seq![c])
}

/// The expectation of the literal text `lit`.
pub open spec fn string_text(lit: Seq<char>) -> Seq<char> {
    quoted_text("string"@, lit)
}

/// The expectation of a character from `from` to `to`.
pub open spec fn range_text(from: char, to: char) -> Seq<char> {
    quoted_text("char from"@, seq![from]) + " to '"@ + seq![to] + "'"@
}

/// Relies on `String::push`: it appends the given character to the end of
/// the string.
#[verifier::external_body]
fn push_char(text: &mut String, c: char)
    ensures
        final(text)@ == old(text)@.push(c),
{
    text.push(c);
}

/// The text of a single character.
fn char_string(c: char) -> (text: String)
    ensures
        text@ == seq![c],
{
    let mut text = String::new();
    push_char(&mut text, c);
    assert(text@ =~= seq![c]);
    text
}

/// `"<what> '<item>'"`: the text of an expectation.
pub(crate) fn quoted(what: &str, item: &str) -> (text: String)
    ensures
        text@ == what@ + seq![' ', '\''] + item@ + seq!['\''],
{
    let mut text = String::from_str(what);
    text.append(" '");
    text.append(item);
    text.append("'");
    proof {
        reveal_strlit(" '");
        reveal_strlit("'");
    }
    text
}

/// The expectation of a single character.
fn expecting_char(c: char) -> (e: Error)
    ensures
        e.stack_view() == Seq::<Seq<char>>::empty(),
        e.expectation@ == char_text(c),
{
    let shown = char_string(c);
    Error::expecting(quoted("char", shown.as_str()))
}

/// The rest of `tail` after its first `n` characters.
pub(crate) fn skip_chars<'a>(tail: &'a str, n: usize) -> (rest: &'a str)
    requires
        n <= tail@.len(),
    ensures
        rest@ == tail@.skip(n as int),
{
    let len = tail.unicode_len();
    let rest = tail.substring_char(n, len);
    assert(rest@ =~= tail@.skip(n as int));
    rest
}

/// `text` starts with `prefix`.
pub open spec fn starts_with(text: Seq<char>, prefix: Seq<char>) -> bool {
    prefix.len() <= text.len() && text.take(prefix.len() as int) == prefix
}

/// Whether `text` starts with `prefix`, character by character.
fn has_prefix(text: &str, prefix: &str) -> (r: bool)
    ensures
        r == starts_with(text@, prefix@),
{
    let n = prefix.unicode_len();
    let m = text.unicode_len();
    if n > m {
        return false;
    }
    let mut i: usize = 0;
    while i < n
        invariant
            n == prefix@.len(),
            m == text@.len(),
            n <= m,
            i <= n,
            forall|j: int| 0 <= j < i ==> text@[j] == prefix@[j],
        decreases n - i,
    {
        if text.get_char(i) != prefix.get_char(i) {
            assert(text@.take(n as int)[i as int] != prefix@[i as int]);
            return false;
        }
        i = i + 1;
    }
    assert(text@.take(n as int) =~= prefix@);
    true
}

/// A literal text: matches exactly that text and outputs it.
impl<'b> Parser for &'b str {
    type Output = &'b str;

    open spec fn inv(&self) -> bool {
        true
    }

    open spec fn outcome(&self, input: Seq<char>, o: Outcome<&'b str>) -> bool {
        if starts_with(input, self@) {
            o == Outcome::Parsed { output: *self, consumed: self@.len() }
        } else {
            o == fresh_failure::<&'b str>(string_text(self@))
        }
    }

    fn p_arse<'a>(&self, tail: &'a str) -> (r: Result<'a, &'b str>) {
        if has_prefix(tail, *self) {
            let rest = skip_chars(tail, self.unicode_len());
            Ok((*self, rest))
        } else {
            Err(Error::expecting(quoted("string", *self)))
        }
    }
}

/// A character: matches exactly that character and outputs it.
impl Parser for char {
    type Output = char;

    open spec fn inv(&self) -> bool {
        true
    }

    open spec fn outcome(&self, input: Seq<char>, o: Outcome<char>) -> bool {
        if input.len() > 0 && input[0] == *self {
            o == Outcome::Parsed { output: *self, consumed: 1 }
        } else {
            o == fresh_failure::<char>(char_text(*self))
        }
    }

    fn p_arse<'a>(&self, tail: &'a str) -> (r: Result<'a, char>) {
        if tail.unicode_len() > 0 {
            let first = tail.get_char(0);
            if first == *self {
                return Ok((first, skip_chars(tail, 1)));
            }
        }
        Err(expecting_char(*self))
    }
}

/// An inclusive range of characters, `from` to `to`.
#[derive(Clone, Copy)]
pub struct CharRange {
    pub from: char,
    pub to: char,
}

/// A concise way to write a [`CharRange`]: `'a'.to('z')`.
pub trait CharExt {
    fn to(self, to: char) -> CharRange;
}

impl CharExt for char {
    fn to(self, to: char) -> (r: CharRange)
        ensures
            r.from == self,
            r.to == to,
    {
        CharRange { from: self, to }
    }
}

impl Parser for CharRange {
    type Output = char;

    open spec fn inv(&self) -> bool {
        true
    }

    open spec fn outcome(&self, input: Seq<char>, o: Outcome<char>) -> bool {
        if input.len() > 0 && self.from <= input[0] && input[0] <= self.to {
            o == Outcome::Parsed { output: input[0], consumed: 1 }
        } else {
            o == fresh_failure::<char>(range_text(self.from, self.to))
        }
    }

    fn p_arse<'a>(&self, tail: &'a str) -> (r: Result<'a, char>) {
        if tail.unicode_len() > 0 {
            let first = tail.get_char(0);
            if self.from <= first && first <= self.to {
                return Ok((first, skip_chars(tail, 1)));
            }
        }
        let from = char_string(self.from);
        let to = char_string(self.to);
        let mut expectation = quoted("char from", from.as_str());
        expectation.append(" to '");
        expectation.append(to.as_str());
        expectation.append("'");
        Err(Error::expecting(expectation))
    }
}

} // verus!
