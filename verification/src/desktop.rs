//! The choices of the desktop shell: which API binary, which web root, which addresses.

use crate::text;
use vstd::prelude::*;
use vstd::string::{StrSliceExecFns, StringExecFns};

verus! {

/// `url::Url`: a parsed URL. `url_text` names its text.
#[verifier::external_type_specification]
#[verifier::external_body]
pub struct ExUrl(url::Url);

/// `url::ParseError`: why a text is not a URL. `url_error_text` names what it says.
#[verifier::external_type_specification]
#[verifier::external_body]
pub struct ExParseError(url::ParseError);

/// The serialization of a `url::Url`.
pub uninterp spec fn url_text(url: url::Url) -> Seq<char>;

/// What `Display` writes for a `url::ParseError`.
pub uninterp spec fn url_error_text(error: url::ParseError) -> Seq<char>;

/// What `url::Url::parse` makes of a text: the serialization of the URL, or what the error says.
pub uninterp spec fn parsed_url(text: Seq<char>) -> Result<Seq<char>, Seq<char>>;

/// `url::Url::parse`: the outcome depends on the text alone.
#[verifier::external_body]
fn parse_url(text: &str) -> (r: Result<url::Url, url::ParseError>)
    ensures
        parsed_url(text@) == (match r {
            Ok(url) => Ok::<Seq<char>, Seq<char>>(url_text(url)),
            Err(error) => Err::<Seq<char>, Seq<char>>(url_error_text(error)),
        }),
{
    url::Url::parse(text)
}

/// `Display` of a `url::ParseError`, as a `String`.
#[verifier::external_body]
fn url_error_message(error: url::ParseError) -> (r: String)
    ensures
        r@ == url_error_text(error),
{
    error.to_string()
}

/// The configured text, or the default if there is none.
pub open spec fn or_default(configured: Option<String>, default: Seq<char>) -> Seq<char> {
    match configured {
        Some(configured) => configured@,
        None => default,
    }
}

fn configured_or(configured: Option<String>, default: &str) -> (r: String)
    ensures
        r@ == or_default(configured, default@),
{
    match configured {
        Some(configured) => configured,
        None => default.to_string(),
    }
}

/// The address to which the API binds.
pub fn api_bind(configured: Option<String>) -> (r: String)
    ensures
        r@ == or_default(configured, "127.0.0.1:1337"@),
        configured is Some ==> r@ == configured->0@,
        configured is None ==> r@ == "127.0.0.1:1337"@,
{
    configured_or(configured, "127.0.0.1:1337")
}

/// The port of the web server.
pub fn web_port(configured: Option<String>) -> (r: String)
    ensures
        r@ == or_default(configured, "5173"@),
        configured is Some ==> r@ == configured->0@,
        configured is None ==> r@ == "5173"@,
{
    configured_or(configured, "5173")
}

/// The address of a port on this machine.
pub fn loopback_address(port: &str) -> (r: String)
    ensures
        r@ == "127.0.0.1:"@ + port@,
{
    let mut r = String::from_str("127.0.0.1:");
    r.append(port);
    r
}

/// The API binary: the configured one unless its name is blank, else the bundled one if there is
/// one. `None` stands for the binary beside the executable.
pub fn configured_api_binary(configured: Option<String>, bundled: Option<String>) -> (r: Option<
    String,
>)
    ensures
        r == (if configured is Some && text::trimmed(configured->0@).len() > 0 {
            configured
        } else {
            bundled
        }),
{
    if let Some(path) = configured {
        if text::trim(path.as_str()).unicode_len() > 0 {
            return Some(path);
        }
    }
    bundled
}

/// What is said when the API could not be started.
pub fn api_start_error(binary: &str, error: &str) -> (r: String)
    ensures
        r@ == "Could not start the Rust Kaneo API at "@ + binary@ + ": "@ + error@
            + ". Set KANEO_RUST_API_BIN to the built kaneo-api binary."@,
{
    let mut r = String::from_str("Could not start the Rust Kaneo API at ");
    r.append(binary);
    r.append(": ");
    r.append(error);
    r.append(". Set KANEO_RUST_API_BIN to the built kaneo-api binary.");
    r
}

/// The URL that the window shows.
pub fn web_url(configured: Option<String>) -> (r: Result<url::Url, String>)
    ensures
        match (parsed_url(or_default(configured, "http://127.0.0.1:5173"@)), r) {
            (Ok(text), Ok(url)) => url_text(url) == text,
            (Err(said), Err(message)) => message@ == "Invalid KANEO_WEB_URL: "@ + said,
            _ => false,
        },
{
    let value = configured_or(configured, "http://127.0.0.1:5173");
    match parse_url(value.as_str()) {
        Ok(url) => Ok(url),
        Err(error) => Err(invalid_web_url(url_error_message(error).as_str())),
    }
}

/// What is said of a web URL that is none, given what the parser says.
pub fn invalid_web_url(said: &str) -> (r: String)
    ensures
        r@ == "Invalid KANEO_WEB_URL: "@ + said@,
{
    let mut r = String::from_str("Invalid KANEO_WEB_URL: ");
    r.append(said);
    r
}

/// Where the web files are.
#[derive(Debug, Clone, Copy, PartialEq, Eq)]
pub enum WebRoot {
    Configured,
    Bundled,
    BesideRuntime,
    Missing,
}

/// The first place that is known and holds an index page: the configured one, the bundled one, the
/// one beside the runtime. Each argument says of a place that is known whether it holds one.
pub fn web_root(
    configured: Option<bool>,
    bundled: Option<bool>,
    beside_runtime: Option<bool>,
) -> (r: WebRoot)
    ensures
        r == (if configured == Some(true) {
            WebRoot::Configured
        } else if bundled == Some(true) {
            WebRoot::Bundled
        } else if beside_runtime == Some(true) {
            WebRoot::BesideRuntime
        } else {
            WebRoot::Missing
        }),
{
    match (configured, bundled, beside_runtime) {
        (Some(true), _, _) => WebRoot::Configured,
        (_, Some(true), _) => WebRoot::Bundled,
        (_, _, Some(true)) => WebRoot::BesideRuntime,
        _ => WebRoot::Missing,
    }
}

/// What to do about a web server that is to become ready.
#[derive(Debug, Clone, Copy, PartialEq, Eq)]
pub enum WebWait {
    Ready,
    RetryAfterMillis(u64),
    GiveUpAfterMillis(u64),
}

/// What to do after a try to connect to the web server, given how many tries failed before it.
pub fn web_wait_step(tries: u32, connected: bool) -> (r: WebWait)
    ensures
        r == (if connected {
            WebWait::Ready
        } else if tries + 1 < 100 {
            WebWait::RetryAfterMillis(25)
        } else {
            WebWait::GiveUpAfterMillis(25)
        }),
{
    if connected {
        WebWait::Ready
    } else if tries < 99 {
        WebWait::RetryAfterMillis(25)
    } else {
        WebWait::GiveUpAfterMillis(25)
    }
}

/// Whether to choose how the webview composes its window, given whether the user has chosen.
pub fn webview_default(configured: bool) -> (r: bool)
    ensures
        r == !configured,
{
    !configured
}

/// What is configured counts, and the default only where nothing is.
pub proof fn law_what_is_configured_counts(configured: Option<String>, default: Seq<char>)
    ensures
        configured is Some ==> or_default(configured, default) == configured->0@,
        configured is None ==> or_default(configured, default) == default,
{
}

} // verus!
