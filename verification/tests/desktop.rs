use kaneo_core::desktop::{
    api_bind, api_start_error, configured_api_binary, loopback_address, web_port, web_root,
    web_url, web_wait_step, webview_default, WebRoot, WebWait,
};
use kaneo_core::env_file::{parse_line, Defaults};

fn some(s: &str) -> Option<String> {
    Some(s.to_string())
}

fn entry(line: &str) -> Option<(String, String)> {
    parse_line(line)
}

fn pair(name: &str, value: &str) -> (String, String) {
    (name.to_string(), value.to_string())
}

#[test]
fn lines_give_names_and_values() {
    assert_eq!(entry(" A = b c "), Some(pair("A", "b c")));
    assert_eq!(entry("export A=1"), Some(pair("A", "1")));
    assert_eq!(entry("export  A=1"), Some(pair(" A", "1")));
    assert_eq!(entry("export =1"), Some(pair("export", "1")));
    assert_eq!(entry("A=b=c"), Some(pair("A", "b=c")));
    assert_eq!(entry("A="), Some(pair("A", "")));
    assert_eq!(entry("A=b # kept"), Some(pair("A", "b # kept")));
}

#[test]
fn lines_without_an_entry_give_none() {
    for line in ["", "  \t", "# A=1", "  #A=1", "A", "=1", " = 1"] {
        assert_eq!(entry(line), None);
    }
}

#[test]
fn values_lose_the_quotes_around_them() {
    assert_eq!(entry("A=\" x \"").expect("entry").1, " x ");
    assert_eq!(entry("A='x'").expect("entry").1, "x");
    assert_eq!(entry("A=\"\"").expect("entry").1, "");
    assert_eq!(entry("A=\"").expect("entry").1, "\"");
    assert_eq!(entry("A=\"x'").expect("entry").1, "\"x'");
    assert_eq!(entry("A='\"x\"'").expect("entry").1, "\"x\"");
}

/// The assignments made in an environment that tells names apart by their `key`.
fn assignments(
    contents: &str,
    defined: &[&str],
    key: fn(&str) -> String,
) -> Vec<(String, String)> {
    let mut known: Vec<String> = defined.iter().map(|name| key(name)).collect();
    let mut made = Vec::new();
    let mut defaults = Defaults::new(contents);
    while let Some(name) = defaults.next_name() {
        let name = key(name);
        if let Some(assignment) = defaults.decide(known.contains(&name)) {
            known.push(name);
            made.push(assignment);
        }
    }
    assert_eq!(defaults.decide(false), None);
    made
}

#[test]
fn defaults_fill_gaps_and_the_first_line_counts() {
    let contents = "# defaults\r\nA=1\r\nB=2\n\nA=3\nexport C='4'\nnonsense\n";
    assert_eq!(
        assignments(contents, &["B", "X"], str::to_string),
        vec![pair("A", "1"), pair("C", "4")]
    );
    assert_eq!(assignments("", &[], str::to_string), Vec::new());
}

#[test]
fn names_for_one_variable_are_told_by_the_system() {
    let contents = "Path=1\nHome=2\nHOME=3\n\u{e9}=4\n\u{c9}=5\n";
    assert_eq!(
        assignments(contents, &["PATH"], str::to_uppercase),
        vec![pair("Home", "2"), pair("\u{e9}", "4")]
    );
    assert_eq!(
        assignments(contents, &["PATH"], str::to_string),
        vec![
            pair("Path", "1"),
            pair("Home", "2"),
            pair("HOME", "3"),
            pair("\u{e9}", "4"),
            pair("\u{c9}", "5"),
        ]
    );
}

#[test]
fn entries_are_decided_one_after_the_other() {
    let mut defaults = Defaults::new("A=1\nB=2\nA=3\n");
    assert_eq!(defaults.next_name(), Some("A"));
    assert_eq!(defaults.decide(false), Some(pair("A", "1")));
    assert_eq!(defaults.next_name(), Some("B"));
    assert_eq!(defaults.decide(true), None);
    assert_eq!(defaults.next_name(), Some("A"));
    assert_eq!(defaults.decide(true), None);
    assert_eq!(defaults.next_name(), None);
}

#[test]
fn the_api_binary_is_configured_else_bundled() {
    assert_eq!(configured_api_binary(some("/a b"), some("/c")), some("/a b"));
    assert_eq!(configured_api_binary(some("  "), some("/c")), some("/c"));
    assert_eq!(configured_api_binary(None, some("/c")), some("/c"));
    assert_eq!(configured_api_binary(some(""), None), None);
}

#[test]
fn addresses_have_defaults() {
    assert_eq!(api_bind(None), "127.0.0.1:1337");
    assert_eq!(api_bind(some("0.0.0.0:1")), "0.0.0.0:1");
    assert_eq!(web_port(None), "5173");
    assert_eq!(web_port(some("80")), "80");
    assert_eq!(loopback_address("80"), "127.0.0.1:80");
}

#[test]
fn an_api_that_does_not_start_is_told() {
    assert_eq!(
        api_start_error("/x", "gone"),
        "Could not start the Rust Kaneo API at /x: gone. Set KANEO_RUST_API_BIN to the built kaneo-api binary."
    );
}

#[test]
fn the_web_url_is_parsed() {
    assert_eq!(web_url(None).expect("a URL").as_str(), "http://127.0.0.1:5173/");
    assert_eq!(
        web_url(some("HTTP://Example.com:80/a/../b")).expect("a URL").as_str(),
        "http://example.com/b"
    );
    assert_eq!(
        web_url(some("nonsense")),
        Err("Invalid KANEO_WEB_URL: relative URL without a base".to_string())
    );
}

#[test]
fn the_web_root_is_the_first_with_an_index() {
    assert_eq!(web_root(Some(true), Some(true), Some(true)), WebRoot::Configured);
    assert_eq!(web_root(Some(false), Some(true), Some(true)), WebRoot::Bundled);
    assert_eq!(web_root(None, None, Some(true)), WebRoot::BesideRuntime);
    assert_eq!(web_root(None, Some(false), None), WebRoot::Missing);
}

#[test]
fn the_web_server_is_waited_for_a_hundred_times() {
    assert_eq!(web_wait_step(0, true), WebWait::Ready);
    assert_eq!(web_wait_step(0, false), WebWait::RetryAfterMillis(25));
    assert_eq!(web_wait_step(98, false), WebWait::RetryAfterMillis(25));
    assert_eq!(web_wait_step(99, false), WebWait::GiveUpAfterMillis(25));
    assert_eq!(web_wait_step(99, true), WebWait::Ready);
    assert_eq!(web_wait_step(u32::MAX, false), WebWait::GiveUpAfterMillis(25));
}

#[test]
fn the_webview_is_configured_unless_the_user_did() {
    assert!(webview_default(false));
    assert!(!webview_default(true));
}
