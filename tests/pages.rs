use webcrawler::crawler::Crawler;
use webcrawler::error::CrawlerError;
use webcrawler::links::Scraper;
use webcrawler::storage::Storage;
use webcrawler::web_url::WebUrl;

#[test]
fn scrape_keeps_absolute_links_in_order() {
    let page = r#"<html><body>
        <a href="https://example.com/one">1</a>
        <a href="/relative">rel</a>
        <p><a href="http://other.test/two?x=1">2</a></p>
        <a>no href</a>
        <a href="https://EXAMPLE.com">3</a>
        </body></html>"#;
    let links = Scraper::scrape(page.to_string());
    assert_eq!(
        links,
        vec![
            "https://example.com/one".to_string(),
            "http://other.test/two?x=1".to_string(),
            "https://example.com/".to_string(),
        ]
    );
}

#[test]
fn scrape_page_without_links() {
    assert!(Scraper::scrape("<html><p>nothing</p></html>".to_string()).is_empty());
    assert!(Scraper::scrape(String::new()).is_empty());
}

#[test]
fn absolute_drops_relative_hrefs() {
    let hrefs = vec!["a/b".to_string(), "mailto:x@y.test".to_string(), "ftp://f.test/".to_string()];
    assert_eq!(
        Scraper::absolute(&hrefs),
        vec!["mailto:x@y.test".to_string(), "ftp://f.test/".to_string()]
    );
}

#[test]
fn parse_gives_serialization_and_host() {
    let u = WebUrl::parse("HTTPS://Example.COM").ok().unwrap();
    assert_eq!(u.text, "https://example.com/");
    assert_eq!(u.host, Some("example.com".to_string()));
    let m = WebUrl::parse("mailto:someone@example.com").ok().unwrap();
    assert_eq!(m.host, None);
    assert!(matches!(WebUrl::parse("not a url"), Err(CrawlerError::UrlParse(_))));
    assert_eq!(WebUrl::serialize("/relative"), None);
}

#[test]
fn url_to_path_is_hex_sha1_with_html() {
    let s = Storage::new("dir".to_string());
    assert_eq!(s.url_to_path("abc"), "a9993e364706816aba3e25717850c26c9cd0d89d.html");
    assert_eq!(s.url_to_path(""), "da39a3ee5e6b4b0d3255bfef95601890afd80709.html");
    assert_eq!(s.path(), "dir");
}

#[test]
fn run_directory_names() {
    assert_eq!(Storage::for_run("example.com", 1700000000123).path(), "webpages/example.com_1700000000123");
    assert_eq!(Storage::for_run("h", 0).path(), "webpages/h_0");
    assert_eq!(Storage::for_run("h", -42).path(), "webpages/h_-42");
    assert_eq!(Storage::for_run("h", i64::MIN).path(), "webpages/h_-9223372036854775808");
}

#[test]
fn storage_from_url_needs_host() {
    let u = WebUrl::parse("https://example.com/x").ok().unwrap();
    let s = Storage::try_from(&u).ok().unwrap();
    assert!(s.path().starts_with("webpages/example.com_"));
    let m = WebUrl::parse("mailto:someone@example.com").ok().unwrap();
    assert!(matches!(Storage::try_from(&m), Err(CrawlerError::NoUrlHost)));
}

#[test]
fn crawler_new_errors() {
    let scraper = || Scraper::new(reqwest::Client::new());
    assert!(matches!(Crawler::new("nope".to_string(), None, scraper()), Err(CrawlerError::UrlParse(_))));
    assert!(matches!(
        Crawler::new("data:text/plain,hi".to_string(), None, scraper()),
        Err(CrawlerError::NoUrlHost)
    ));
    let given = Crawler::new("data:text/plain,hi".to_string(), Some(Storage::new("d".to_string())), scraper());
    let c = given.ok().unwrap();
    assert_eq!(c.root_url(), "data:text/plain,hi");
    assert_eq!(c.storage_ref().path(), "d");
}

#[test]
fn crawler_frontier_starts_at_root() {
    let c = Crawler::new("http://Root.test".to_string(), None, Scraper::new(reqwest::Client::new()))
        .ok()
        .unwrap();
    assert_eq!(c.root_url(), "http://root.test/");
    assert!(c.storage_ref().path().starts_with("webpages/root.test_"));
    let f = c.frontier(0, 3);
    assert_eq!(f.pages_admitted(), 1);
    assert_eq!(f.tasks_in_flight(), 1);
    assert!(f.is_visited(&"http://root.test/".to_string()));
}
