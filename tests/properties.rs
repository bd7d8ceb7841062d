use p_arse::function::{Rec, RecursiveFunction};
use p_arse::misc::{self, EndOfFile};
use p_arse::pattern::pat;
use p_arse::{any, eoi, fun, rec, CharExt, Fun, Parser, Result};

/// A = "a" A?
#[derive(Clone, Copy)]
struct RepeatedA;

impl Rec for RepeatedA {
    type Output = ();

    fn step<'a>(&self, tail: &'a str, this: RecursiveFunction<Self>) -> Result<'a, ()> {
        ("a", this.opt()).ignore().p_arse(tail)
    }
}

#[test]
fn digits_then_end_of_input() {
    let number = ('0'.to('9').more(), eoi());
    let ((digits, ()), rest) = number.p_arse("123").unwrap();
    assert_eq!(digits, vec!['1', '2', '3']);
    assert_eq!(rest, "");
    assert!(number.p_arse("12a").is_err());
}

#[test]
fn true_or_false() {
    let boolean = "true".map(|_| true).or("false".map(|_| false));
    assert_eq!(boolean.p_arse("true").unwrap(), (true, ""));
    assert_eq!(boolean.p_arse("false").unwrap(), (false, ""));
    assert!(boolean.p_arse("tru").is_err());
}

#[test]
fn recursive_rule_of_a() {
    let a_string = rec(RepeatedA);
    assert!(a_string.p_arse("").is_err());
    assert_eq!(a_string.p_arse("a").unwrap(), ((), ""));
    assert_eq!(a_string.p_arse("aa").unwrap(), ((), ""));
    assert_eq!(a_string.p_arse("aaa").unwrap(), ((), ""));
    assert_eq!(a_string.p_arse("aab").unwrap(), ((), "b"));
}

#[test]
fn rest_is_a_suffix_of_the_input() {
    let input = "abc123";
    let (_, rest) = 'a'.to('z').more().p_arse(input).unwrap();
    assert_eq!(rest, "123");
    assert!(input.ends_with(rest));
    let (_, rest) = ("ab", any()).p_arse(input).unwrap();
    assert_eq!(rest, "123");
    let (_, rest) = any().zore().p_arse(input).unwrap();
    assert_eq!(rest, "");
}

#[test]
fn opt_never_fails() {
    assert_eq!('a'.opt().p_arse("b").unwrap(), (None, "b"));
    assert_eq!('a'.opt().p_arse("").unwrap(), (None, ""));
    assert_eq!('a'.opt().p_arse("ab").unwrap(), (Some('a'), "b"));
}

#[test]
fn zore_never_fails_and_stops_on_empty_matches() {
    assert_eq!('a'.zore().p_arse("").unwrap(), (vec![], ""));
    assert_eq!('a'.zore().p_arse("aab").unwrap(), (vec!['a', 'a'], "b"));
    // The inner parser matches the empty text: the repetition stops there.
    assert_eq!('a'.opt().zore().p_arse("aab").unwrap(), (vec![Some('a'), Some('a')], "b"));
    assert_eq!('a'.opt().zore().p_arse("b").unwrap(), (vec![], "b"));
}

#[test]
fn more_fails_iff_first_application_fails() {
    let err = 'a'.named("a").more().p_arse("ba").unwrap_err();
    assert_eq!(err.stack, vec!["a"]);
    assert_eq!('a'.more().p_arse("ab").unwrap(), (vec!['a'], "b"));
    assert_eq!('a'.more().p_arse("aaab").unwrap(), (vec!['a', 'a', 'a'], "b"));
    assert_eq!('a'.opt().more().p_arse("b").unwrap(), (vec![None], "b"));
}

#[test]
fn or_is_left_biased() {
    assert_eq!("a".or("ab").p_arse("ab").unwrap(), ("a", "b"));
    assert_eq!("ab".or("a").p_arse("ab").unwrap(), ("ab", ""));
    assert_eq!("x".or("a").p_arse("ab").unwrap(), ("a", "b"));
}

#[test]
fn or_reports_the_last_error() {
    let choice = 'a'.named("first").or('b'.named("second"));
    assert_eq!(choice.p_arse("c").unwrap_err().stack, vec!["second"]);
}

#[test]
fn lookaheads_keep_the_position() {
    assert_eq!('a'.ahead().p_arse("abc").unwrap(), ((), "abc"));
    assert_eq!('x'.not_ahead().p_arse("abc").unwrap(), ((), "abc"));
    assert!('x'.ahead().p_arse("abc").is_err());
    assert!('a'.not_ahead().p_arse("abc").is_err());
    assert_eq!(('a'.ahead(), any()).p_arse("abc").unwrap(), (((), 'a'), "bc"));
}

#[test]
fn named_rules_stack_innermost_first() {
    let z = ",,,".named("x").named("y").named("z");
    assert_eq!(z.p_arse("...").unwrap_err().stack, vec!["x", "y", "z"]);
    assert_eq!(z.p_arse(",,,.").unwrap(), (",,,", "."));
}

#[test]
fn sequence_stops_at_first_failure() {
    let pair = ("a".named("first"), "b".named("second"));
    assert_eq!(pair.p_arse("ax").unwrap_err().stack, vec!["second"]);
    assert_eq!(pair.p_arse("xb").unwrap_err().stack, vec!["first"]);
    let six = ('a', 'b', 'c', 'd', 'e', 'f');
    assert_eq!(six.p_arse("abcdefg").unwrap(), (('a', 'b', 'c', 'd', 'e', 'f'), "g"));
    assert!(six.p_arse("abcdeX").is_err());
    let four = ('a', 'b', 'c', 'd');
    assert_eq!(four.p_arse("abcd").unwrap(), (('a', 'b', 'c', 'd'), ""));
    let five = ('a', 'b', 'c', 'd', 'e');
    assert_eq!(five.p_arse("abcde!").unwrap(), (('a', 'b', 'c', 'd', 'e'), "!"));
}

#[test]
fn terminals_state_their_expectation() {
    assert_eq!('a'.p_arse("b").unwrap_err().expectation, "char 'a'");
    assert_eq!("abc".p_arse("abd").unwrap_err().expectation, "string 'abc'");
    assert_eq!('a'.to('z').p_arse("A").unwrap_err().expectation, "char from 'a' to 'z'");
    assert_eq!(any().p_arse("").unwrap_err().expectation, "any");
    assert_eq!(eoi().p_arse("x").unwrap_err().expectation, "eoi");
}

#[test]
fn char_range_bounds_are_inclusive() {
    let lower = 'a'.to('z');
    assert_eq!(lower.p_arse("a1").unwrap(), ('a', "1"));
    assert_eq!(lower.p_arse("z1").unwrap(), ('z', "1"));
    assert_eq!(lower.p_arse("q").unwrap(), ('q', ""));
    assert!(lower.p_arse("").is_err());
    assert!(lower.p_arse("{").is_err());
}

#[test]
fn characters_are_unicode_scalars() {
    assert_eq!('ł'.p_arse("łajza").unwrap(), ('ł', "ajza"));
    assert_eq!(any().p_arse("żółw").unwrap(), ('ż', "ółw"));
    assert_eq!("żó".p_arse("żółw").unwrap(), ("żó", "łw"));
}

#[test]
fn pattern_matches_one_character() {
    let ascii = pat(|c: char| c.is_ascii());
    assert_eq!(ascii.p_arse("abcde").unwrap(), ("a".to_string(), "bcde"));
    assert!(ascii.p_arse("łajza").is_err());
    assert!(ascii.p_arse("").is_err());
}

#[test]
fn end_of_file_and_any_constructors() {
    let end: EndOfFile = misc::eof();
    assert_eq!(end.p_arse("").unwrap(), ((), ""));
    assert!(end.p_arse("x").is_err());
    assert_eq!(misc::any().p_arse("xy").unwrap(), ('x', "y"));
    assert!(misc::any().p_arse("").is_err());
}

#[test]
fn maps_sees_the_consumed_text() {
    let word = 'a'.to('z').more().maps(|s: &str| s.len());
    assert_eq!(word.p_arse("abc1").unwrap(), (3, "1"));
    let upper = 'a'.to('z').more().maps(|s: &str| s.to_uppercase());
    assert_eq!(upper.p_arse("żab").unwrap_err().stack, Vec::<&str>::new());
    assert_eq!(upper.p_arse("ab!").unwrap(), ("AB".to_string(), "!"));
}

#[test]
fn map_passes_failures_through() {
    let digit = '0'.to('9').named("digit").map(|d: char| d as u32 - '0' as u32);
    assert_eq!(digit.p_arse("7x").unwrap(), (7, "x"));
    assert_eq!(digit.p_arse("x").unwrap_err().stack, vec!["digit"]);
}

#[test]
fn function_parsers_call_their_function() {
    let ab: &dyn Fun<_> = &|tail| ("a", "b").p_arse(tail);
    let ab = fun(ab);
    assert_eq!(ab.p_arse("abc").unwrap(), (("a", "b"), "c"));
    assert!(ab.p_arse("ba").is_err());
    let ignored = ab.ignore();
    assert_eq!(ignored.p_arse("ab").unwrap(), ((), ""));
}

#[test]
fn lookaheads_state_their_expectation() {
    let err = 'x'.ahead().p_arse("abc").unwrap_err();
    assert_eq!(err.expectation, "positive lookahead");
    assert!(err.stack.is_empty());
    let err = 'a'.not_ahead().p_arse("abc").unwrap_err();
    assert_eq!(err.expectation, "negative lookahead");
    assert!(err.stack.is_empty());
    assert_eq!(pat(|c: char| c.is_ascii_digit()).p_arse("a").unwrap_err().expectation, "pattern");
}

#[test]
fn wrappers_pass_the_inner_error_on() {
    let named = 'a'.named("x").named("y").named("z");
    let err = named.p_arse("b").unwrap_err();
    assert_eq!(err.expectation, "char 'a'");
    assert_eq!(err.stack, vec!["x", "y", "z"]);
    assert_eq!('a'.more().p_arse("b").unwrap_err().expectation, "char 'a'");
    assert_eq!('a'.map(|c: char| c as u32).p_arse("b").unwrap_err().expectation, "char 'a'");
    assert_eq!('a'.ignore().p_arse("b").unwrap_err().expectation, "char 'a'");
    assert_eq!('a'.maps(|s: &str| s.len()).p_arse("b").unwrap_err().expectation, "char 'a'");
    assert_eq!(('a', 'b', 'c').p_arse("abx").unwrap_err().expectation, "char 'c'");
}

#[test]
fn failed_choice_reports_the_last_alternative() {
    let boolean = "true".map(|_| true).or("false".map(|_| false));
    let err = boolean.p_arse("tru").unwrap_err();
    assert_eq!(err.expectation, "string 'false'");
    assert!(err.stack.is_empty());
}

#[test]
fn digits_fail_at_the_end_of_input_check() {
    let number = ('0'.to('9').more(), eoi());
    let err = number.p_arse("12a").unwrap_err();
    assert_eq!(err.expectation, "eoi");
    assert!(err.stack.is_empty());
    assert_eq!(number.p_arse("a").unwrap_err().expectation, "char from '0' to '9'");
}

#[test]
fn recursive_rule_reports_the_rule_error() {
    let a_string = rec(RepeatedA);
    assert_eq!(a_string.p_arse("b").unwrap_err().expectation, "string 'a'");
    let ab: &dyn Fun<_> = &|tail| ("a", "b").p_arse(tail);
    assert_eq!(fun(ab).p_arse("ax").unwrap_err().expectation, "string 'b'");
}
