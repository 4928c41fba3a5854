//! Web addresses: what the library reads of a parsed URL, and the check that
//! only `http` and `https` addresses are taken.

use vstd::prelude::*;
use crate::text::same_text;

verus! {

/// The parts of a parsed URL that the launcher reads.
pub struct WebUrl {
    /// The scheme, without the `:` delimiter.
    pub scheme: String,
    /// The host, where the URL has one.
    pub host: Option<String>,
}

/// The mathematical value of a [`WebUrl`].
pub struct WebUrlView {
    pub scheme: Seq<char>,
    pub host: Option<Seq<char>>,
}

impl View for WebUrl {
    type V = WebUrlView;

    open spec fn view(&self) -> WebUrlView {
        WebUrlView { scheme: self.scheme@, host: self.host.deep_view() }
    }
}

/// The value of a parse result: the URL's parts, or the error's text.
pub open spec fn parsed_view(r: Result<WebUrl, String>) -> Result<WebUrlView, Seq<char>> {
    match r {
        Ok(u) => Ok(u@),
        Err(e) => Err(e@),
    }
}

/// What the `url` crate makes of `text`: the scheme and host of the parsed URL,
/// or the text of the parse error.
pub uninterp spec fn url_parse(text: Seq<char>) -> Result<WebUrlView, Seq<char>>;

/// Parses `value` with `url::Url::parse`. On success the opaque `Url` is turned
/// into plain values through its `scheme()` and `host_str()` accessors; on
/// failure the `ParseError` is turned into its `Display` text. The contract
/// claims only that the result is the crate's answer for `value`, named
/// `url_parse`; what that answer is for a given text is not stated here.
#[verifier::external_body]
fn parse_url(value: &str) -> (res: Result<WebUrl, String>)
    ensures
        parsed_view(res) == url_parse(value@),
{
    match url::Url::parse(value) {
        Ok(url) => Ok(WebUrl {
            scheme: url.scheme().to_owned(),
            host: url.host_str().map(|host| host.to_owned()),
        }),
        Err(error) => Err(error.to_string()),
    }
}

/// Whether `scheme` is one of the two web schemes.
pub open spec fn is_web_scheme(scheme: Seq<char>) -> bool {
    scheme == "http"@ || scheme == "https"@
}

/// The message for a URL whose scheme is not a web scheme.
pub open spec fn unsupported_scheme_message() -> Seq<char> {
    "only http and https URLs are supported"@
}

/// What `parse_web_url` answers once the parser has answered `parsed`.
pub open spec fn web_url_result(parsed: Result<WebUrlView, Seq<char>>) -> Result<
    WebUrlView,
    Seq<char>,
> {
    match parsed {
        Ok(u) => if is_web_scheme(u.scheme) {
            Ok(u)
        } else {
            Err(unsupported_scheme_message())
        },
        Err(e) => Err(e),
    }
}

/// Whether `text` parses as an `http` or `https` URL.
pub open spec fn is_web_url(text: Seq<char>) -> bool {
    web_url_result(url_parse(text)) is Ok
}

/// Keeps a parse result only where its scheme is `http` or `https`.
pub fn check_web_url(parsed: Result<WebUrl, String>) -> (res: Result<WebUrl, String>)
    ensures
        parsed_view(res) == web_url_result(parsed_view(parsed)),
{
    match parsed {
        Ok(url) => {
            if same_text(url.scheme.as_str(), "http") || same_text(url.scheme.as_str(), "https") {
                Ok(url)
            } else {
                Err(String::from_str("only http and https URLs are supported"))
            }
        },
        Err(e) => Err(e),
    }
}

/// Parses `value` as a URL and accepts it only with the `http` or `https` scheme.
pub fn parse_web_url(value: &str) -> (res: Result<WebUrl, String>)
    ensures
        parsed_view(res) == web_url_result(url_parse(value@)),
{
    check_web_url(parse_url(value))
}

} // verus!
