use kaneo_core::json::Json;
use kaneo_core::output::{describe, parse_output, value_text};

fn event(line: &str) -> (String, String) {
    parse_output(line, "stdout")
}

fn pair(event_type: &str, text: &str) -> (String, String) {
    (event_type.to_string(), text.to_string())
}

#[test]
fn a_line_that_is_no_json_stands_for_itself() {
    assert_eq!(event(" \t hello world \r"), pair("stdout", "hello world"));
    assert_eq!(parse_output("", "stderr"), pair("stderr", ""));
    assert_eq!(event("{\"type\":"), pair("stdout", "{\"type\":"));
}

#[test]
fn the_type_of_an_event_is_its_text_under_type() {
    assert_eq!(event(r#"{"type":"a","message":"m"}"#), pair("a", "m"));
    assert_eq!(event(r#"{"type":7,"message":"m"}"#), pair("event", "m"));
    assert_eq!(event(r#"{"message":"m"}"#), pair("event", "m"));
}

#[test]
fn the_content_of_an_event_is_looked_up_in_order() {
    let item = r#""item":{"content":"c","message":"m","text":"t"}"#;
    assert_eq!(event(&format!("{{{item},\"message\":\"x\"}}")).1, "t");
    assert_eq!(event(r#"{"item":{"content":"c","message":"m"},"message":"x"}"#).1, "m");
    assert_eq!(event(r#"{"item":{"content":"c"},"message":"x"}"#).1, "c");
    assert_eq!(event(r#"{"item":{},"message":"x","error":"e"}"#).1, "x");
    assert_eq!(event(r#"{"item":"text","error":"e"}"#).1, "e");
    assert_eq!(event(r#"{"item":{"text":null},"message":"x"}"#).1, "null");
}

#[test]
fn an_event_without_content_shows_its_line() {
    assert_eq!(event(" {\"type\":\"a\"} "), pair("a", "{\"type\":\"a\"}"));
    assert_eq!(event("12"), pair("event", "12"));
    assert_eq!(event("[1,2]"), pair("event", "[1,2]"));
}

#[test]
fn content_that_is_no_string_is_written_as_json() {
    assert_eq!(event(r#"{"error":{"code":1}}"#).1, "{\n  \"code\": 1\n}");
    assert_eq!(value_text(&Json::Text("a\"b".to_string())), "a\"b");
    assert_eq!(value_text(&Json::Array(vec![Json::Bool(false)])), "[\n  false\n]");
}

#[test]
fn a_parsed_event_is_described_without_its_line() {
    let value = Json::parse(r#"{"type":"t","item":{"text":"said"}}"#).expect("JSON");
    assert_eq!(describe(&value, "unused"), pair("t", "said"));
}

#[test]
fn json_is_read_and_written() {
    assert!(Json::parse("{").is_none());
    assert!(Json::parse("").is_none());
    let value = Json::parse(r#"{"b":1,"a":[true,null,"x",-2,1.5],"b":3}"#).expect("JSON");
    assert_eq!(
        value.pretty(),
        "{\n  \"a\": [\n    true,\n    null,\n    \"x\",\n    -2,\n    1.5\n  ],\n  \"b\": 3\n}"
    );
    assert!(matches!(value.field("b"), Some(Json::Number(n)) if n.as_u64() == Some(3)));
    assert!(value.field("c").is_none());
    assert!(Json::Null.field("a").is_none());
}

#[test]
fn floats_are_told_from_other_numbers() {
    for text in ["1.5", "[1,{\"a\":-0.0}]", "1e2", "18446744073709551616"] {
        assert!(Json::parse(text).expect("JSON").has_float(), "{text}");
    }
    for text in ["15", "-2", "18446744073709551615", "\"1.5\"", "{\"1.5\":[null,true]}"] {
        assert!(!Json::parse(text).expect("JSON").has_float(), "{text}");
    }
}

#[test]
fn json_nested_too_deeply_is_none() {
    let nested = |depth: usize| "[".repeat(depth) + &"]".repeat(depth);
    assert!(Json::parse(&nested(127)).is_some());
    assert!(Json::parse(&nested(128)).is_none());
}
