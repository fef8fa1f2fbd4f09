use std::cell::Cell;

use rcombinators::combinators::{Lazy, RepeatSpec};
use rcombinators::primitives::{string_none_of, string_of, whitespace, Int32, Int64, Uint8};
use rcombinators::{
    Alternative, ParseState, Parser, ParserOps, PartialSequence, Repeat, Sequence, StringParser,
    Transform,
};

#[test]
fn test_pair() {
    let mut p = Sequence::new((Int64::new(), StringParser::new(" aba")));
    let mut ps = ParseState::new("123 aba");
    assert_eq!(Ok((123, " aba".to_string())), p.parse(&mut ps));
}

#[test]
fn test_long_seq() {
    let s = || StringParser::new("a");
    let mut p = Sequence::new((s(), s(), s(), s(), s(), s(), s(), s(), s(), s()));
    let mut ps = ParseState::new("aaaaaaaaaa");
    assert_eq!(
        Ok((
            "a".to_string(),
            "a".to_string(),
            "a".to_string(),
            "a".to_string(),
            "a".to_string(),
            "a".to_string(),
            "a".to_string(),
            "a".to_string(),
            "a".to_string(),
            "a".to_string()
        )),
        p.parse(&mut ps)
    );
}

#[test]
fn test_then() {
    let mut ps = ParseState::new("abcdef 123");
    let mut p = StringParser::new("abc")
        .then(StringParser::new("def"))
        .then(whitespace())
        .then(Int32::new());
    assert_eq!(Ok(123), p.parse(&mut ps));
}

#[test]
fn test_alternative() {
    let mut p = Alternative::new((
        StringParser::new("ab"),
        StringParser::new("de"),
        StringParser::new(" "),
        Transform::new(Int64::new(), |i: i64| Ok(i.to_string())),
    ));
    let mut ps = ParseState::new("de 34");
    assert_eq!(Ok("de".to_string()), p.parse(&mut ps));
    assert_eq!(Ok(" ".to_string()), p.parse(&mut ps));
    assert_eq!(Ok("34".to_string()), p.parse(&mut ps));
}

#[test]
fn test_alternative_first_wins() {
    // Ordered choice: the first option wins even though the second would
    // match more input.
    let mut p = Alternative::new((StringParser::new("ab"), StringParser::new("abc")));
    let mut ps = ParseState::new("abcd");
    assert_eq!(Ok("ab".to_string()), p.parse(&mut ps));
    assert_eq!(2, ps.index());
}

#[test]
fn test_alternative_all_fail() {
    let mut p = Alternative::new((StringParser::new("x"), StringParser::new("y")));
    let mut ps = ParseState::new("zzz");
    assert!(p.parse(&mut ps).is_err());
    assert_eq!(0, ps.index());
}

#[test]
fn test_repeat() {
    let mut ps = ParseState::new("aaa aaa aaaa aaaa");
    assert_eq!(
        3,
        Repeat::new(StringParser::new("a"), RepeatSpec::Any)
            .parse(&mut ps)
            .unwrap()
            .len()
    );
    assert!(StringParser::new(" ").parse(&mut ps).is_ok());
    assert_eq!(
        3,
        Repeat::new(StringParser::new("a"), RepeatSpec::Min(2))
            .parse(&mut ps)
            .unwrap()
            .len()
    );
    assert!(StringParser::new(" ").parse(&mut ps).is_ok());
    assert_eq!(
        3,
        Repeat::new(StringParser::new("a"), RepeatSpec::Max(3))
            .parse(&mut ps)
            .unwrap()
            .len()
    );
    assert!(StringParser::new("a ").parse(&mut ps).is_ok());
    assert_eq!(
        3,
        Repeat::new(StringParser::new("a"), RepeatSpec::Between(1, 3))
            .parse(&mut ps)
            .unwrap()
            .len()
    );
    assert!(StringParser::new("a").parse(&mut ps).is_ok());
}

#[test]
fn test_repeat_below_minimum_rewinds() {
    // Fewer matches than the minimum: the whole Repeat fails and the stream
    // is back at its start.
    let mut p = Repeat::new(StringParser::new("a"), RepeatSpec::Min(5));
    let mut ps = ParseState::new("aaab");
    assert!(p.parse(&mut ps).is_err());
    assert_eq!(0, ps.index());
}

#[test]
fn test_partial_sequence() {
    let mut p =
        PartialSequence::new((StringParser::new("a"), StringParser::new("c"), Int64::new()));
    let mut ps = ParseState::new("acde");
    assert_eq!(
        Ok((Some("a".to_string()), Some("c".to_string()), None)),
        p.parse(&mut ps)
    );

    let mut p = PartialSequence::new((
        Sequence::new((Int64::new(), StringParser::new(" "), Int64::new())),
        StringParser::new("x"),
    ));
    let mut ps = ParseState::new("12 -12 nothing else");
    assert_eq!(
        Ok((Some((12, " ".to_string(), -12)), None)),
        p.parse(&mut ps)
    );
}

#[test]
fn test_lazy() {
    let mut ps = ParseState::new("123");
    let mut p = Alternative::new((
        Uint8::new(),
        Lazy::new(|| {
            if true {
                panic!("lazy should not run this function!");
            }
            Uint8::new()
        }),
    ));
    assert_eq!(Ok(123), p.parse(&mut ps));
}

#[test]
fn test_lazy2() {
    let mut ps = ParseState::new("123");
    let mut p = Alternative::new((
        string_none_of("01234", RepeatSpec::Min(1)),
        Lazy::new(|| Uint8::new().apply(|i: u8| Ok(i.to_string()))),
    ));
    assert_eq!(Ok("123".to_string()), p.parse(&mut ps));
}

#[test]
fn test_lazy3() {
    let i = Cell::new(0);
    let mut ps = ParseState::new("123 124");
    let lzy = || {
        assert_eq!(0, i.get());
        i.set(i.get() + 1);
        string_of("0123456789", RepeatSpec::Min(1))
    };
    let mut p = Alternative::new((string_of("a", RepeatSpec::Min(1)), Lazy::new(lzy)));
    assert_eq!(Ok("123".to_string()), p.parse(&mut ps));
    assert!(whitespace().parse(&mut ps).is_ok());
    assert_eq!(Ok("124".to_string()), p.parse(&mut ps));
    assert_eq!(1, i.get());
}

#[test]
fn test_transform_failure_rewinds() {
    let mut p = Transform::new(Int64::new(), |_: i64| {
        Err::<i64, _>(rcombinators::execerr("rejected"))
    });
    let mut ps = ParseState::new("123");
    assert!(p.parse(&mut ps).is_err());
    assert_eq!(0, ps.index());
}

#[test]
fn test_maybe_never_fails() {
    let mut p = rcombinators::Maybe::new(StringParser::new("zz"));
    let mut ps = ParseState::new("abc");
    assert_eq!(Ok(None), p.parse(&mut ps));
    assert_eq!(0, ps.index());
    let mut p = rcombinators::Maybe::new(StringParser::new("ab"));
    assert_eq!(Ok(Some("ab".to_string())), p.parse(&mut ps));
    assert_eq!(2, ps.index());
}
