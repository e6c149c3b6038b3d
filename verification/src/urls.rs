//! URLs, held as their serialization. Parsing and resolution are the `url`
//! crate's (through `reqwest::Url`); this module names their results.
use vstd::prelude::*;

verus! {

/// The serialization of `Url::parse(input)`, or `None` where it fails.
pub uninterp spec fn spec_url_parse(input: Seq<char>) -> Option<Seq<char>>;

/// The serialization of `Url::parse(base)?.join(input)`, or `None` where either fails.
pub uninterp spec fn spec_url_join(base: Seq<char>, input: Seq<char>) -> Option<Seq<char>>;

/// `Url::parse(url)?.scheme()`.
pub uninterp spec fn spec_url_scheme(url: Seq<char>) -> Option<Seq<char>>;

/// `Url::parse(url)?.path()`.
pub uninterp spec fn spec_url_path(url: Seq<char>) -> Option<Seq<char>>;

/// The serialization of `url` after `query_pairs_mut().append_pair(name, value)`.
pub uninterp spec fn spec_url_append_pair(url: Seq<char>, name: Seq<char>, value: Seq<char>) -> Option<
    Seq<char>,
>;

pub open spec fn opt_view(o: Option<String>) -> Option<Seq<char>> {
    match o {
        Some(s) => Some(s@),
        None => None,
    }
}

/// `reqwest::Url::parse`, returning the serialization of the parsed URL.
#[verifier::external_body]
pub(crate) fn url_parse(input: &str) -> (r: Option<String>)
    ensures
        opt_view(r) == spec_url_parse(input@),
{
    let u = reqwest::Url::parse(input).ok()?;
    Some(u.to_string())
}

/// `reqwest::Url::join`: resolves `input` against the parsed `base`.
#[verifier::external_body]
pub(crate) fn url_join(base: &str, input: &str) -> (r: Option<String>)
    ensures
        opt_view(r) == spec_url_join(base@, input@),
{
    let b = reqwest::Url::parse(base).ok()?;
    let u = b.join(input).ok()?;
    Some(u.to_string())
}

/// `reqwest::Url::scheme` of the parsed `url`.
#[verifier::external_body]
pub(crate) fn url_scheme(url: &str) -> (r: Option<String>)
    ensures
        opt_view(r) == spec_url_scheme(url@),
{
    let u = reqwest::Url::parse(url).ok()?;
    Some(u.scheme().to_owned())
}

/// `reqwest::Url::path` of the parsed `url`.
#[verifier::external_body]
pub(crate) fn url_path(url: &str) -> (r: Option<String>)
    ensures
        opt_view(r) == spec_url_path(url@),
{
    let u = reqwest::Url::parse(url).ok()?;
    Some(u.path().to_owned())
}

/// `query_pairs_mut().append_pair(name, value)` on the parsed `url`.
#[verifier::external_body]
pub(crate) fn url_append_pair(url: &str, name: &str, value: &str) -> (r: Option<String>)
    ensures
        opt_view(r) == spec_url_append_pair(url@, name@, value@),
{
    let mut u = reqwest::Url::parse(url).ok()?;
    u.query_pairs_mut().append_pair(name, value);
    Some(u.to_string())
}

/// The URL schemes that transfers accept.
pub open spec fn is_http(scheme: Option<Seq<char>>) -> bool {
    scheme == Some("http"@) || scheme == Some("https"@)
}

/// Whether the parsed `url` uses HTTP or HTTPS.
pub fn http_scheme(url: &str) -> (r: bool)
    ensures
        r == is_http(spec_url_scheme(url@)),
{
    match url_scheme(url) {
        Some(s) => crate::text::str_eq(s.as_str(), "http") || crate::text::str_eq(s.as_str(), "https"),
        None => false,
    }
}

} // verus!
