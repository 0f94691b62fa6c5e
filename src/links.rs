//! Link extraction: the absolute URLs that the anchors of a page point to.
use vstd::prelude::*;

use crate::web_url::{url_serialization, WebUrl};

verus! {

/// Declares `reqwest::Client`, the HTTP client that fetches pages.
#[verifier::external_type_specification]
#[verifier::external_body]
pub struct ExClient(reqwest::Client);

/// The `href` values of the `<a>` elements of an HTML document, in document
/// order.
pub uninterp spec fn anchor_hrefs(page: Seq<char>) -> Seq<Seq<char>>;

/// The views of a sequence of strings.
pub open spec fn texts(v: Seq<String>) -> Seq<Seq<char>> {
    v.map_values(|s: String| s@)
}

/// The serializations of the hrefs that parse as absolute URLs, in order;
/// the others are dropped.
pub open spec fn absolute_links(hrefs: Seq<Seq<char>>) -> Seq<Seq<char>>
    decreases hrefs.len(),
{
    if hrefs.len() == 0 {
        Seq::empty()
    } else {
        let rest = absolute_links(hrefs.drop_last());
        match url_serialization(hrefs.last()) {
            Some(u) => rest.push(u),
            None => rest,
        }
    }
}

/// Relies on `scraper::Html::parse_document`, `Selector::parse("a")`,
/// `Html::select` and `Element::attr("href")`: the hrefs of the document's
/// anchors, in document order, a function of the page's text alone.
#[verifier::external_body]
fn hrefs_of(page: &str) -> (r: Vec<String>)
    ensures
        texts(r@) == anchor_hrefs(page@),
{
    let html = scraper::Html::parse_document(page);
    let selector = scraper::Selector::parse("a").unwrap();
    html.select(&selector).filter_map(|e| e.value().attr("href")).map(String::from).collect()
}

/// Fetches pages and extracts their links.
pub struct Scraper {
    /// The HTTP client used for fetches.
    pub client: reqwest::Client,
}

impl Scraper {
    /// A scraper that fetches with `client`.
    pub fn new(client: reqwest::Client) -> (r: Scraper)
        ensures
            r.client == client,
    {
        Scraper { client }
    }

    /// The absolute URLs linked from `page`, in the order the anchors appear.
    /// Hrefs that are not absolute URLs are dropped: no base is applied.
    pub fn scrape(page: String) -> (r: Vec<String>)
        ensures
            texts(r@) == absolute_links(anchor_hrefs(page@)),
    {
        let hrefs = hrefs_of(page.as_str());
        Scraper::absolute(&hrefs)
    }

    /// The serializations of the hrefs that parse as absolute URLs, in order.
    pub fn absolute(hrefs: &Vec<String>) -> (r: Vec<String>)
        ensures
            texts(r@) == absolute_links(texts(hrefs@)),
    {
        let mut out: Vec<String> = Vec::new();
        let mut i: usize = 0;
        while i < hrefs.len()
            invariant
                0 <= i <= hrefs.len(),
                texts(out@) == absolute_links(texts(hrefs@).take(i as int)),
            decreases hrefs.len() - i,
        {
            let ghost before = out@;
            proof {
                assert(texts(hrefs@).take(i + 1).drop_last() =~= texts(hrefs@).take(i as int));
            }
            match WebUrl::serialize(hrefs[i].as_str()) {
                Some(u) => {
                    out.push(u);
                    proof {
                        assert(texts(out@) =~= texts(before).push(u@));
                    }
                },
                None => {},
            }
            i += 1;
        }
        proof {
            assert(texts(hrefs@).take(hrefs.len() as int) =~= texts(hrefs@));
        }
        out
    }
}

} // verus!
