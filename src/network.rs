//! What is checked before a document is fetched: only absolute `http` and
//! `https` URLs are.
use crate::text::{ascii_lower, string_from};
use vstd::prelude::*;

verus! {

/// Why a document could not be had: a message for the user.
#[derive(Debug, Clone, PartialEq, Eq)]
pub struct BrowserError(pub String);

impl BrowserError {
    pub fn message(&self) -> (r: &String)
        ensures
            *r == self.0,
    {
        &self.0
    }
}

/// The scheme that `url::Url::parse` finds in `s`, or `None` where `s` is not
/// an absolute URL; a function of the text alone.
pub uninterp spec fn url_scheme(s: Seq<char>) -> Option<Seq<char>>;

/// Relies on `url::Url::parse` and `Url::scheme`: the scheme of an absolute
/// URL, which the crate documents as lower-case ASCII, or the parser's
/// message where the text is not an absolute URL.
#[verifier::external_body]
fn parse_scheme(url_str: &str) -> (r: Result<String, String>)
    ensures
        match r {
            Ok(s) => url_scheme(url_str@) == Some(s@) && ascii_lower(s@) == s@,
            Err(_) => url_scheme(url_str@) is None,
        },
{
    url::Url::parse(url_str).map(|u| u.scheme().to_string()).map_err(|e| e.to_string())
}

pub open spec fn is_web_scheme(s: Seq<char>) -> bool {
    s == seq!['h', 't', 't', 'p'] || s == seq!['h', 't', 't', 'p', 's']
}

pub open spec fn unsupported_prefix() -> Seq<char> {
    seq![
        'U', 'n', 's', 'u', 'p', 'p', 'o', 'r', 't', 'e', 'd', ' ', 's', 'c', 'h', 'e', 'm', 'e',
        ':', ' ',
    ]
}

/// Accepts the schemes `http` and `https`; any other is refused with the
/// message `Unsupported scheme: <scheme>`.
pub fn check_scheme(scheme: &str) -> (r: Result<(), BrowserError>)
    ensures
        r is Ok <==> is_web_scheme(scheme@),
        r matches Err(e) ==> e.0@ == unsupported_prefix() + scheme@,
{
    let s = crate::text::chars_of(scheme);
    let http = ['h', 't', 't', 'p'];
    let https = ['h', 't', 't', 'p', 's'];
    if crate::text::same_chars(&s, &http) || crate::text::same_chars(&s, &https) {
        return Ok(());
    }
    let mut msg = vec![
        'U', 'n', 's', 'u', 'p', 'p', 'o', 'r', 't', 'e', 'd', ' ', 's', 'c', 'h', 'e', 'm', 'e',
        ':', ' ',
    ];
    let ghost head = msg@;
    assert(head == unsupported_prefix());
    let mut tail = s;
    msg.append(&mut tail);
    Err(BrowserError(string_from(&msg)))
}

/// Accepts an absolute URL whose scheme is `http` or `https`.
pub fn check_url(url_str: &str) -> (r: Result<(), BrowserError>)
    ensures
        r is Ok <==> (url_scheme(url_str@) matches Some(s) && is_web_scheme(s)),
        r matches Err(e) ==> (url_scheme(url_str@) matches Some(s) ==> e.0@
            == unsupported_prefix() + s),
{
    match parse_scheme(url_str) {
        Ok(scheme) => check_scheme(scheme.as_str()),
        Err(message) => Err(BrowserError(message)),
    }
}

} // verus!
