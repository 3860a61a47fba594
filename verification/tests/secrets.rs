use kaneo_core::json::Json;
use kaneo_core::redact::{is_sensitive_key, redact_bearer, redact_json};
use kaneo_core::redact_secrets;

fn text(s: &str) -> Json {
    Json::Text(s.to_string())
}

fn object(entries: Vec<(&str, Json)>) -> Json {
    Json::Object(
        entries
            .into_iter()
            .map(|(key, value)| (key.to_string(), value))
            .collect(),
    )
}

fn redacted(mut value: Json) -> String {
    redact_json(&mut value);
    value.pretty()
}

#[test]
fn redacts_sensitive_json_and_bearer_output() {
    let redacted = redact_secrets(r#"{"token":"secret","nested":{"api_key":"hidden"}}"#);
    assert!(!redacted.contains("secret"));
    assert!(!redacted.contains("hidden"));
    assert!(redacted.contains("[redacted]"));
    assert_eq!(redact_secrets("Bearer super-secret"), "Bearer [redacted]");
}

#[test]
fn redacted_json_is_written_indented_with_sorted_keys() {
    assert_eq!(
        redact_secrets(r#" {"b":[1,2.5,{"My_Access_Key_Id":{"deep":1}}],"TOKENS":[1],"a":null}"#),
        "{\n  \"TOKENS\": \"[redacted]\",\n  \"a\": null,\n  \"b\": [\n    1,\n    2.5,\n    {\n      \"My_Access_Key_Id\": \"[redacted]\"\n    }\n  ]\n}"
    );
    assert_eq!(redact_secrets("true"), "true");
    assert_eq!(redact_secrets("\"Bearer kept\""), "\"Bearer kept\"");
}

#[test]
fn sensitive_keys_are_found_in_any_case() {
    for key in ["token", "accessToken", "API_KEY", "x-api_key-y", "AWS_ACCESS_KEY_ID"] {
        assert!(is_sensitive_key(key), "{key}");
    }
    for key in ["", "tok", "apikey", "api-key", "access key", "secret"] {
        assert!(!is_sensitive_key(key), "{key}");
    }
}

#[test]
fn a_value_shows_no_secret_once_redacted_and_is_then_left_alone() {
    let value = || {
        object(vec![
            ("plain", text("kept")),
            ("list", Json::Array(vec![object(vec![("token", Json::Bool(true))]), Json::Null])),
            ("api_key", object(vec![("inner", text("gone"))])),
        ])
    };
    let once = redacted(value());
    assert_eq!(
        once,
        "{\n  \"api_key\": \"[redacted]\",\n  \"list\": [\n    {\n      \"token\": \"[redacted]\"\n    },\n    null\n  ],\n  \"plain\": \"kept\"\n}"
    );
    assert_eq!(redacted(Json::parse(&once).expect("JSON")), once);
}

#[test]
fn the_first_token_behind_either_spelling_is_masked() {
    assert_eq!(redact_bearer("a Bearer x y bearer z\tw"), "a Bearer [redacted] y bearer [redacted]\tw");
    assert_eq!(redact_bearer("Bearer one Bearer two"), "Bearer [redacted] Bearer two");
    assert_eq!(redact_bearer("Bearer "), "Bearer [redacted]");
    assert_eq!(redact_bearer("Bearer  x"), "Bearer [redacted] x");
    assert_eq!(redact_bearer("Bearer é\u{a0}rest"), "Bearer [redacted]\u{a0}rest");
    assert_eq!(redact_bearer("bearer Bearer tok"), "bearer [redacted] [redacted]");
}

#[test]
fn masking_a_token_twice_is_masking_it_once() {
    let once = redact_bearer("x Bearer abc def");
    assert_eq!(redact_bearer(&once), once);
}

#[test]
fn text_that_names_no_bearer_token_is_kept() {
    for kept in ["", "plain", "BEARER x", "Bearer", "token=abc", "{broken"] {
        assert_eq!(redact_secrets(kept), kept);
    }
}

#[test]
fn texts_that_differ_in_their_secrets_alone_are_redacted_alike() {
    let one = redact_secrets(r#"{"n":[{"token":"abc"}],"api_key":1,"plain":"kept"}"#);
    let two = redact_secrets(r#"{"plain":"kept","n":[{"token":{"deep":[2.5]}}],"api_key":null}"#);
    assert_eq!(one, two);
    assert_ne!(one, redact_secrets(r#"{"n":[{"token":"abc"}],"api_key":1,"plain":"other"}"#));
}

#[test]
fn redacted_json_is_still_json_and_is_then_left_alone() {
    let once = redact_secrets(r#"{"n":[-9223372036854775808,18446744073709551615],"token":"é\n"}"#);
    assert_eq!(
        once,
        "{\n  \"n\": [\n    -9223372036854775808,\n    18446744073709551615\n  ],\n  \"token\": \"[redacted]\"\n}"
    );
    let read = Json::parse(&once).expect("JSON");
    assert!(matches!(read.field("token"), Some(Json::Text(said)) if said == "[redacted]"));
    assert_eq!(redact_secrets(&once), once);
}

#[test]
fn a_value_that_cannot_be_read_back_is_written_all_the_same() {
    assert_eq!(
        redact_secrets(r#"{"a":"Bearer x","$serde_json::private::RawValue":"2","token":3}"#),
        "{\n  \"$serde_json::private::RawValue\": \"2\",\n  \"a\": \"Bearer x\",\n  \"token\": \"[redacted]\"\n}"
    );
}
