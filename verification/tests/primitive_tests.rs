use std::iter;

use rcombinators::combinators::RepeatSpec;
use rcombinators::parser::ParseError;
use rcombinators::primitives::{Int16, Int64, OneOf, Uint128, Uint64};
use rcombinators::{
    string_none_of, string_of, whitespace, ParseState, Parser, Sequence, StringParser,
};

#[test]
fn test_parse_string() {
    let mut s = ParseState::new("abc def");
    let mut p = StringParser::new("abc ");
    assert_eq!(Ok("abc ".to_owned()), p.parse(&mut s));
    assert_eq!(4, s.index());
}

#[test]
fn test_parse_string_mismatch_rewinds() {
    // The same literal against input whose last character differs: failure
    // with zero net consumption.
    let mut s = ParseState::new("abd def");
    let mut p = StringParser::new("abc");
    assert!(p.parse(&mut s).is_err());
    assert_eq!(0, s.index());
}

#[test]
fn test_parse_int() {
    let mut s = ParseState::new("-1252 353 354 -1253 422345");
    let mut ip = Int64::new();
    let mut up = Uint64::new();
    let mut sp = StringParser::new(" ");
    assert_eq!(Ok(-1252), ip.parse(&mut s));
    assert_eq!(Ok(" ".to_string()), sp.parse(&mut s));
    assert_eq!(Ok(353), ip.parse(&mut s));
    assert_eq!(Ok(" ".to_string()), sp.parse(&mut s));
    assert_eq!(Ok(354), up.parse(&mut s));
    assert_eq!(Ok(" ".to_string()), sp.parse(&mut s));
    assert!(up.parse(&mut s).is_err());
    assert_eq!(Ok(-1253), ip.parse(&mut s));
    assert_eq!(Ok(" ".to_string()), sp.parse(&mut s));
    assert_eq!(Ok(422345), up.parse(&mut s));
}

#[test]
fn test_parse_long_int() {
    let mut s = ParseState::new("123456789");
    let mut up = Uint128::new();
    assert_eq!(Ok(123456789 as u128), up.parse(&mut s));
}

#[test]
fn test_parse_int_overflow() {
    // Syntactically fine, semantically too wide for the target type: the
    // failure is a semantic one and the stream is rewound.
    let mut s = ParseState::new("40000");
    let mut p = Int16::new();
    assert!(p.parse(&mut s).is_err());
    assert_eq!(0, s.index());
}

#[test]
fn test_parse_int_no_digits() {
    let mut s = ParseState::new("x1");
    let mut p = Int64::new();
    assert!(p.parse(&mut s).is_err());
    assert_eq!(0, s.index());
    let mut s = ParseState::new("-x");
    assert!(p.parse(&mut s).is_err());
    assert_eq!(0, s.index());
}

#[test]
fn test_parse_int_extremes() {
    let mut s = ParseState::new("-9223372036854775808");
    assert_eq!(Ok(i64::MIN), Int64::new().parse(&mut s));
    let mut s = ParseState::new("9223372036854775807");
    assert_eq!(Ok(i64::MAX), Int64::new().parse(&mut s));
    // One past the maximum of the widest target type.
    let mut s = ParseState::new("340282366920938463463374607431768211456");
    assert!(Uint128::new().parse(&mut s).is_err());
    assert_eq!(0, s.index());
}

#[test]
fn test_string_of() {
    let mut st = ParseState::new("aaabcxxzy");
    let mut p = string_of("abcd", RepeatSpec::Min(1));
    assert_eq!(Ok("aaabc".to_string()), p.parse(&mut st));
}

#[test]
fn test_string_none_of() {
    let mut st = ParseState::new("aaabcxxzy");
    let mut p = string_none_of("xyz", RepeatSpec::Min(1));
    assert_eq!(Ok("aaabc".to_string()), p.parse(&mut st));
}

#[test]
fn test_string_of_large_set() {
    // More members than the hashed-set threshold: the representation changes,
    // the behavior must not.
    let set = "abcdefghijklmnopqrstuvwxyz";
    let mut st = ParseState::new("hello world");
    let mut p = string_of(set, RepeatSpec::Min(1));
    assert_eq!(Ok("hello".to_string()), p.parse(&mut st));
    assert_eq!(5, st.index());
}

#[test]
fn test_error_positions() {
    // The literal matcher reports the position where the mismatch was found,
    // after rewinding the matched prefix.
    let mut s = ParseState::new("abX");
    let mut p = StringParser::new("abc");
    assert_eq!(Err(ParseError::Fail("string not matched", 2)), p.parse(&mut s));
    assert_eq!(0, s.index());

    let mut s = ParseState::new("xy");
    let mut oo = OneOf::new("ab");
    assert_eq!(Err(ParseError::Fail("char not matched", 0)), oo.parse(&mut s));
    assert_eq!(Err(ParseError::EOF), Int64::new().parse(&mut ParseState::new("")));
}

#[test]
fn test_whitespace_skips() {
    let mut s = ParseState::new(" \t\r\nx");
    assert_eq!(Ok(()), whitespace().parse(&mut s));
    assert_eq!(4, s.index());
    // Zero whitespace is also fine.
    assert_eq!(Ok(()), whitespace().parse(&mut s));
    assert_eq!(4, s.index());
}

#[test]
fn bench_integer_medium() {
    let piece = "-422345812310928 ";
    let repeats: usize = 1000000;
    let mut input = String::with_capacity(piece.len() * repeats);
    input.extend(iter::repeat(piece).take(repeats));
    let mut ps = ParseState::new(&input);
    let mut p = Sequence::new((Int64::new(), StringParser::new(" ")));
    for _ in 0..repeats {
        let _ = p.parse(&mut ps);
    }

    let piece = "-4223458123109289 ";
    let mut input = String::with_capacity(piece.len() * repeats);
    input.extend(iter::repeat(piece).take(repeats));
    let mut ps = ParseState::new(&input);
    for _ in 0..repeats {
        let _ = p.parse(&mut ps);
    }
}
