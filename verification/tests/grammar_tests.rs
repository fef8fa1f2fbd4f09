use std::collections::HashMap;

use rcombinators::combinators::RepeatSpec;
use rcombinators::primitives::Int32;
use rcombinators::{
    execerr, string_none_of, string_of, whitespace, Alternative, Maybe, ParseState, Parser,
    ParserOps, Repeat, Sequence, StringParser,
};

/// A value of the illustrative grammar built on top of the combinators:
/// `Value = Number | String | List | Dict`.
#[derive(Debug, PartialEq, Clone)]
enum JsonVal {
    Num(f64),
    Str(String),
    List(Vec<JsonVal>),
    Dict(HashMap<String, JsonVal>),
}

fn json_string() -> impl Parser<Result = JsonVal> {
    Sequence::new((
        StringParser::new("\""),
        string_none_of("\"", RepeatSpec::Any),
        StringParser::new("\""),
    ))
    .apply(|(_, s, _): (String, String, String)| Ok(JsonVal::Str(s)))
}

fn json_number() -> impl Parser<Result = JsonVal> {
    let digits = || string_of("0123456789", RepeatSpec::Min(1));
    Sequence::new((
        Maybe::new(StringParser::new("-")),
        digits(),
        Maybe::new(
            Sequence::new((StringParser::new("."), Maybe::new(digits())))
                .apply(|(_, d): (String, Option<String>)| Ok(d.unwrap_or_default())),
        ),
        Maybe::new(
            Sequence::new((StringParser::new("e"), Int32::new()))
                .apply(|(_, e): (String, i32)| Ok(e)),
        ),
    ))
    .apply(
        |(m, i, f, e): (Option<String>, String, Option<String>, Option<i32>)| {
            let mut s = String::new();
            if m.is_some() {
                s.push('-');
            }
            s.push_str(&i);
            if let Some(frac) = f {
                s.push('.');
                s.push_str(&frac);
            }
            if let Some(exp) = e {
                s.push('e');
                s.push_str(&exp.to_string());
            }
            match s.parse::<f64>() {
                Ok(v) => Ok(JsonVal::Num(v)),
                Err(_) => Err(execerr("not a number")),
            }
        },
    )
}

fn json_list(elem: impl Parser<Result = JsonVal>) -> impl Parser<Result = JsonVal> {
    let item = Sequence::new((
        whitespace(),
        elem,
        whitespace(),
        Maybe::new(StringParser::new(",")),
    ))
    .apply(|(_, v, _, _): ((), JsonVal, (), Option<String>)| Ok(v));
    Sequence::new((
        StringParser::new("["),
        Repeat::new(item, RepeatSpec::Any),
        StringParser::new("]"),
    ))
    .apply(|(_, vs, _): (String, Vec<JsonVal>, String)| Ok(JsonVal::List(vs)))
}

fn json_dict(value: impl Parser<Result = JsonVal>) -> impl Parser<Result = JsonVal> {
    let key = Sequence::new((
        whitespace(),
        json_string(),
        whitespace(),
        StringParser::new(":"),
    ))
    .apply(|(_, k, _, _): ((), JsonVal, (), String)| match k {
        JsonVal::Str(s) => Ok(s),
        _ => Err(execerr("object keys must be strings")),
    });
    let entry = Sequence::new((
        key,
        whitespace(),
        value,
        whitespace(),
        Maybe::new(StringParser::new(",")),
    ))
    .apply(
        |(k, _, v, _, _): (String, (), JsonVal, (), Option<String>)| Ok((k, v)),
    );
    Sequence::new((
        StringParser::new("{"),
        Repeat::new(entry, RepeatSpec::Any),
        StringParser::new("}"),
    ))
    .apply(|(_, es, _): (String, Vec<(String, JsonVal)>, String)| {
        let mut d = HashMap::new();
        for (k, v) in es {
            d.insert(k, v);
        }
        Ok(JsonVal::Dict(d))
    })
}

fn json_value_leaf() -> impl Parser<Result = JsonVal> {
    Alternative::new((json_string(), json_number()))
}

fn json_value_nested() -> impl Parser<Result = JsonVal> {
    Alternative::new((
        json_string(),
        json_number(),
        json_list(json_value_leaf()),
        json_dict(json_value_leaf()),
    ))
}

fn json_value() -> impl Parser<Result = JsonVal> {
    Alternative::new((
        json_string(),
        json_number(),
        json_list(json_value_nested()),
        json_dict(json_value_nested()),
    ))
}

#[test]
fn test_json_end_to_end() {
    let mut ps = ParseState::new("{\"hello\": [\"world\", []], \"x\": 4}");
    let got = json_dict(json_value()).parse(&mut ps);
    let want = JsonVal::Dict(HashMap::from([
        (
            "hello".to_string(),
            JsonVal::List(vec![
                JsonVal::Str("world".to_string()),
                JsonVal::List(vec![]),
            ]),
        ),
        ("x".to_string(), JsonVal::Num(4.0)),
    ]));
    assert_eq!(Ok(want), got);
}

#[test]
fn test_json_number_forms() {
    for (text, want) in [
        ("1", 1.0),
        ("1.", 1.0),
        ("1.5", 1.5),
        ("-1.5", -1.5),
        ("-1.75", -1.75),
        ("2.5e-4", 0.00025),
        ("-2e-2", -0.02),
    ] {
        let mut ps = ParseState::new(text);
        assert_eq!(Ok(JsonVal::Num(want)), json_number().parse(&mut ps));
    }
}

#[test]
fn test_json_trailing_comma_list() {
    let mut ps = ParseState::new("[1, 2, \"three\",]");
    let want = JsonVal::List(vec![
        JsonVal::Num(1.0),
        JsonVal::Num(2.0),
        JsonVal::Str("three".to_string()),
    ]);
    assert_eq!(Ok(want), json_list(json_value_leaf()).parse(&mut ps));
}
