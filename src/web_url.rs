//! Absolute URLs, held as their serialization and their host.
use vstd::prelude::*;

use crate::error::CrawlerError;

verus! {

/// The serialization of the absolute URL that `text` parses to, if any.
pub uninterp spec fn url_serialization(text: Seq<char>) -> Option<Seq<char>>;

/// The host of the absolute URL that `text` parses to, if that URL has one.
pub uninterp spec fn url_host(text: Seq<char>) -> Option<Seq<char>>;

/// A parsed absolute URL. Two URLs are the same exactly when their
/// serializations are equal.
pub struct WebUrl {
    /// The serialization, the URL's identity.
    pub text: String,
    /// The host, where the URL has one.
    pub host: Option<String>,
}

/// Relies on `url::Url::parse`, which fails on a text that is not an absolute
/// URL, and on `Url::host_str` and `String::from(Url)` (the serialization),
/// both functions of the parsed text alone.
#[verifier::external_body]
fn parse_url(text: &str) -> (r: Result<WebUrl, url::ParseError>)
    ensures
        r is Ok <==> url_serialization(text@) is Some,
        r is Ok ==> r->Ok_0.text@ == url_serialization(text@)->0,
        r is Ok ==> (r->Ok_0.host is Some <==> url_host(text@) is Some),
        r is Ok && r->Ok_0.host is Some ==> r->Ok_0.host->0@ == url_host(text@)->0,
{
    match url::Url::parse(text) {
        Ok(u) => {
            let host = u.host_str().map(String::from);
            Ok(WebUrl { text: String::from(u), host })
        },
        Err(e) => Err(e),
    }
}

impl WebUrl {
    /// Parses `text` as an absolute URL; no base is used, so a relative
    /// reference is an error.
    pub fn parse(text: &str) -> (r: Result<WebUrl, CrawlerError>)
        ensures
            r is Ok <==> url_serialization(text@) is Some,
            r is Err ==> r->Err_0 is UrlParse,
            r is Ok ==> r->Ok_0.text@ == url_serialization(text@)->0,
            r is Ok ==> (r->Ok_0.host is Some <==> url_host(text@) is Some),
            r is Ok && r->Ok_0.host is Some ==> r->Ok_0.host->0@ == url_host(text@)->0,
    {
        match parse_url(text) {
            Ok(u) => Ok(u),
            Err(e) => Err(CrawlerError::UrlParse(e)),
        }
    }

    /// The serialization, parsed or not, of a text: `None` where it is not an
    /// absolute URL.
    pub fn serialize(text: &str) -> (r: Option<String>)
        ensures
            r is Some <==> url_serialization(text@) is Some,
            r is Some ==> r->0@ == url_serialization(text@)->0,
    {
        match parse_url(text) {
            Ok(u) => Some(u.text),
            Err(_) => None,
        }
    }
}

} // verus!
