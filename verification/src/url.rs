//! URL parsing and building through the `url` types that `reqwest` re-exports.
use vstd::prelude::*;
use crate::text::{chars_of, decimal_chars, decimal_spec, push_chars, push_str, string_from_chars, trim_chars, trim_spec};

verus! {

/// What `reqwest::Url::parse` makes of `text`, read through its accessors: the scheme, the host
/// (if any), the port or the scheme's default port, and the path; `None` when `text` is not an
/// absolute URL.
pub uninterp spec fn url_parts_spec(text: Seq<char>) -> Option<(Seq<char>, Option<Seq<char>>, Option<u16>, Seq<char>)>;

/// What `reqwest::Url::parse(base)` followed by `set_path(path)` serialises to.
pub uninterp spec fn url_with_path_spec(base: Seq<char>, path: Seq<char>) -> Option<Seq<char>>;

/// The parts of a parsed URL.
pub struct UrlParts {
    pub scheme: String,
    pub host: Option<String>,
    pub port: Option<u16>,
    pub path: String,
}

/// The characters of an optional string.
pub open spec fn opt_chars(s: Option<String>) -> Option<Seq<char>> {
    match s {
        Some(v) => Some(v@),
        None => None,
    }
}

impl UrlParts {
    /// The parts as plain values.
    pub open spec fn spec_of(&self) -> (Seq<char>, Option<Seq<char>>, Option<u16>, Seq<char>) {
        (self.scheme@, opt_chars(self.host), self.port, self.path@)
    }
}

/// Parses `text` with `reqwest::Url::parse` and reads `scheme()`, `host_str()`,
/// `port_or_known_default()` and `path()`. The contract only names the result: the URL
/// standard's parsing rules are not restated here.
#[verifier::external_body]
pub(crate) fn parse_url_parts(text: &str) -> (r: Option<UrlParts>)
    ensures
        r is None <==> url_parts_spec(text@) is None,
        r matches Some(p) ==> url_parts_spec(text@) == Some(p.spec_of()),
{
    let url = reqwest::Url::parse(text).ok()?;
    Some(
        UrlParts {
            scheme: url.scheme().to_string(),
            host: url.host_str().map(|h| h.to_string()),
            port: url.port_or_known_default(),
            path: url.path().to_string(),
        },
    )
}

/// Parses `base` with `reqwest::Url::parse`, replaces its path with `path` through
/// `Url::set_path` (which percent-encodes what needs it) and returns the serialised URL.
/// `set_path` cannot fail, so the result is absent exactly when `base` does not parse; the
/// serialisation itself is only named.
#[verifier::external_body]
pub(crate) fn url_with_path(base: &str, path: &str) -> (r: Option<String>)
    ensures
        r is None <==> url_parts_spec(base@) is None,
        r is None <==> url_with_path_spec(base@, path@) is None,
        r matches Some(s) ==> url_with_path_spec(base@, path@) == Some(s@),
{
    let mut url = reqwest::Url::parse(base).ok()?;
    url.set_path(path);
    Some(url.to_string())
}

/// The base URL of the camera's OSC service: `http://`, the host without surrounding white
/// space, a colon and the port.
pub open spec fn osc_base_url_spec(host: Seq<char>, port: u16) -> Seq<char> {
    "http://"@ + trim_spec(host) + ":"@ + decimal_spec(port as nat)
}

/// The base URL of the camera's OSC service.
pub fn osc_base_url(host: &str, port: u16) -> (r: String)
    ensures
        r@ == osc_base_url_spec(host@, port),
{
    let chars = chars_of(host);
    let trimmed = trim_chars(&chars);
    let digits = decimal_chars(port as u64);
    let mut out: Vec<char> = Vec::new();
    push_str(&mut out, "http://");
    push_chars(&mut out, &trimmed);
    push_str(&mut out, ":");
    push_chars(&mut out, &digits);
    assert(out@ =~= osc_base_url_spec(host@, port));
    string_from_chars(&out)
}

} // verus!
