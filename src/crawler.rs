//! A crawl's configuration: its root URL, where pages are stored, and the
//! scraper that fetches them.
use vstd::prelude::*;

use crate::error::CrawlerError;
use crate::frontier::{effective_tasks, Frontier};
use crate::links::Scraper;
use crate::storage::{run_dir, Storage};
use crate::web_url::{url_host, url_serialization, WebUrl};

verus! {

/// A crawler rooted at one absolute URL.
pub struct Crawler {
    root_url: WebUrl,
    storage: Storage,
    scraper: Scraper,
}

impl Crawler {
    /// A crawler from `root_url`. Fails with `UrlParse` when the text is not an
    /// absolute URL; else, without a given storage, with `NoUrlHost` when the
    /// URL has no host, and otherwise stores under
    /// `webpages/<host>_<millis>`, `millis` being the time now.
    pub fn new(root_url: String, storage: Option<Storage>, scraper: Scraper) -> (r: Result<
        Crawler,
        CrawlerError,
    >)
        ensures
            url_serialization(root_url@) is None <==> (r is Err && r->Err_0 is UrlParse),
            (url_serialization(root_url@) is Some && storage is None && url_host(root_url@) is None)
                <==> (r is Err && r->Err_0 is NoUrlHost),
            r is Err ==> r->Err_0 is UrlParse || r->Err_0 is NoUrlHost,
            r is Ok ==> r->Ok_0.root()@ == url_serialization(root_url@)->0,
            r is Ok && storage is Some ==> r->Ok_0.storage().dir() == storage->0.dir(),
            r is Ok && storage is None ==> exists|millis: i64|
                r->Ok_0.storage().dir() == run_dir(url_host(root_url@)->0, millis as int),
    {
        let root_url = match WebUrl::parse(root_url.as_str()) {
            Ok(u) => u,
            Err(e) => {
                return Err(e);
            },
        };
        let storage = match storage {
            Some(storage) => storage,
            None => match Storage::try_from(&root_url) {
                Ok(s) => s,
                Err(e) => {
                    return Err(e);
                },
            },
        };
        Ok(Crawler { root_url, storage, scraper })
    }

    /// The serialization of the root URL.
    pub closed spec fn root(&self) -> String {
        self.root_url.text
    }

    /// The serialization of the root URL.
    pub fn root_url(&self) -> (r: &String)
        ensures
            r == self.root(),
    {
        &self.root_url.text
    }

    /// Where pages are stored.
    pub closed spec fn storage(&self) -> Storage {
        self.storage
    }

    /// Where pages are stored.
    pub fn storage_ref(&self) -> (r: &Storage)
        ensures
            r == self.storage(),
    {
        &self.storage
    }

    /// The scraper that fetches pages.
    pub fn scraper(&self) -> (r: &Scraper) {
        &self.scraper
    }

    /// The frontier of a new run from the root, with at most `max_tasks`
    /// fetches in flight (0 counts as 1) and at most `max_pages` pages
    /// admitted.
    pub fn frontier(&self, max_tasks: usize, max_pages: usize) -> (r: Frontier)
        requires
            max_pages >= 1,
        ensures
            r@.inv(),
            r@.initial(),
            r@.admitted == seq![self.root()@],
            r@.max_tasks == effective_tasks(max_tasks),
            r@.max_pages == max_pages,
    {
        Frontier::new(self.root_url.text.clone(), max_tasks, max_pages)
    }
}

} // verus!
