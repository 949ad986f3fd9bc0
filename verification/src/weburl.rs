//! URLs as this library reads them: the parts of a parsed URL, held as plain
//! strings.
use vstd::prelude::*;

verus! {

#[verifier::external_type_specification]
#[verifier::external_body]
pub struct ExUrlParseError(url::ParseError);

/// The parts of a parsed URL that plugin lookup reads.
#[derive(Debug, Clone)]
pub struct UrlParts {
    /// The whole URL, serialized.
    pub href: String,
    /// The scheme, without the `:`.
    pub scheme: String,
    /// The user name (empty when there is none).
    pub username: String,
    /// The password, when there is one.
    pub password: Option<String>,
    /// The path, starting with `/` for URLs with a host.
    pub path: String,
}

/// The view of a URL: serialization, scheme, user name, password and path.
pub type UrlView = (Seq<char>, Seq<char>, Seq<char>, Option<Seq<char>>, Seq<char>);

pub open spec fn opt_str_view(o: Option<String>) -> Option<Seq<char>> {
    match o {
        Some(s) => Some(s@),
        None => None,
    }
}

impl View for UrlParts {
    type V = UrlView;

    open spec fn view(&self) -> UrlView {
        (self.href@, self.scheme@, self.username@, opt_str_view(self.password), self.path@)
    }
}

/// What `url::Url::parse` makes of a string: its parts, or none when it
/// refuses the string.
pub uninterp spec fn url_parse(s: Seq<char>) -> Option<UrlView>;

/// Parses `s` with `url::Url::parse` and reads the parsed URL's `as_str`,
/// `scheme`, `username`, `password` and `path`.
///
/// Trusted: the result is what the url crate's parser gives for `s`, named
/// `url_parse`; nothing more of that parser (WHATWG URL parsing,
/// percent-encoding) is stated.
#[verifier::external_body]
pub(crate) fn parse_url(s: &str) -> (r: std::result::Result<UrlParts, url::ParseError>)
    ensures
        match r {
            Ok(u) => url_parse(s@) == Some(u@),
            Err(_) => url_parse(s@) is None,
        },
{
    url::Url::parse(s).map(
        |u|
            UrlParts {
                href: u.as_str().to_string(),
                scheme: u.scheme().to_string(),
                username: u.username().to_string(),
                password: u.password().map(|p| p.to_string()),
                path: u.path().to_string(),
            },
    )
}

/// What `url::Url::set_host(Some(host))` makes of the URL that
/// `url::Url::parse` reads from `text`, serialized; none when the parser
/// refuses `text` or the URL refuses the host.
pub uninterp spec fn url_host_replaced(text: Seq<char>, host: Seq<char>) -> Option<Seq<char>>;

/// Parses `text` with `url::Url::parse`, sets its host with `set_host`, and
/// serializes it with `to_string`.
///
/// Trusted: the result is what the url crate gives for `text` and `host`,
/// named `url_host_replaced`; nothing more of URL parsing or host
/// validation is stated.
#[verifier::external_body]
pub(crate) fn set_url_host(text: &str, host: &str) -> (r: Option<String>)
    ensures
        match r {
            Some(u) => url_host_replaced(text@, host@) == Some(u@),
            None => url_host_replaced(text@, host@) is None,
        },
{
    let mut u = url::Url::parse(text).ok()?;
    u.set_host(Some(host)).ok()?;
    Some(u.to_string())
}

} // verus!
