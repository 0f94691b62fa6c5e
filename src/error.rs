//! Errors that end a crawl before it starts.
use vstd::prelude::*;

verus! {

/// Declares `url::ParseError`, the reason a text is not an absolute URL.
#[verifier::external_type_specification]
#[verifier::external_body]
pub struct ExParseError(url::ParseError);

/// A fatal error of a crawl run.
#[derive(Debug)]
pub enum CrawlerError {
    /// The discovery inbox stopped delivering messages.
    Transport,
    /// The root URL has no host to name the run's directory after.
    NoUrlHost,
    /// The root URL does not parse as an absolute URL.
    UrlParse(url::ParseError),
}

} // verus!
