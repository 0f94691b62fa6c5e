use std::collections::{HashMap, VecDeque};

use webcrawler::frontier::{Frontier, Summary};

/// A site: each page's links, or `None` where its fetch fails.
type Site = HashMap<String, Option<Vec<String>>>;

struct Trace {
    summary: Summary,
    fetches: HashMap<String, usize>,
    max_in_flight: usize,
    admitted: usize,
}

fn site(pages: &[(&str, Option<&[&str]>)]) -> Site {
    pages
        .iter()
        .map(|(u, links)| {
            (u.to_string(), links.map(|l| l.iter().map(|s| s.to_string()).collect()))
        })
        .collect()
}

/// Drives a frontier over `site` as the coordinating loop does, taking
/// discoveries while they are admissible and completing the oldest task
/// otherwise.
fn crawl(site: &Site, root: &str, max_tasks: usize, max_pages: usize) -> Trace {
    let mut frontier = Frontier::new(root.to_string(), max_tasks, max_pages);
    let mut tasks: VecDeque<String> = VecDeque::new();
    tasks.push_back(root.to_string());
    let mut inbox: VecDeque<String> = VecDeque::new();
    let mut fetches: HashMap<String, usize> = HashMap::new();
    *fetches.entry(root.to_string()).or_insert(0) += 1;
    let mut max_in_flight = frontier.tasks_in_flight();
    let mut steps = 0;
    while !frontier.is_finished(inbox.is_empty()) {
        steps += 1;
        assert!(steps < 100_000, "the run does not end");
        if frontier.accepts_discoveries() && !inbox.is_empty() {
            let url = inbox.pop_front().unwrap();
            if frontier.offer(url.clone()) {
                *fetches.entry(url.clone()).or_insert(0) += 1;
                tasks.push_back(url);
            }
        } else {
            let url = tasks.pop_front().expect("a task is in flight");
            match site.get(&url).cloned().flatten() {
                Some(links) => {
                    frontier.complete(true);
                    inbox.extend(links);
                }
                None => frontier.complete(false),
            }
        }
        max_in_flight = max_in_flight.max(frontier.tasks_in_flight());
        assert!(frontier.pages_admitted() <= max_pages);
    }
    assert!(tasks.is_empty());
    Trace {
        summary: frontier.summary(),
        fetches,
        max_in_flight,
        admitted: frontier.pages_admitted(),
    }
}

#[test]
fn single_page_visits_one() {
    let s = site(&[("http://a.test/", Some(&[]))]);
    let t = crawl(&s, "http://a.test/", 4, 100);
    assert_eq!(t.summary, Summary { pages_visited: 1, pages_failed: 0 });
    assert_eq!(t.admitted, 1);
}

#[test]
fn cycle_terminates_with_two_pages() {
    let s = site(&[
        ("http://a.test/", Some(&["http://b.test/"])),
        ("http://b.test/", Some(&["http://a.test/"])),
    ]);
    let t = crawl(&s, "http://a.test/", 4, 100);
    assert_eq!(t.summary, Summary { pages_visited: 2, pages_failed: 0 });
    assert_eq!(t.fetches.len(), 2);
    assert!(t.fetches.values().all(|&n| n == 1));
}

#[test]
fn page_ceiling_admits_exactly_three() {
    let links: Vec<String> = (0..10).map(|i| format!("http://a.test/{}", i)).collect();
    let refs: Vec<&str> = links.iter().map(|s| s.as_str()).collect();
    let mut pages: Vec<(&str, Option<&[&str]>)> = vec![("http://a.test/", Some(&refs[..]))];
    for l in &refs {
        pages.push((l, Some(&[])));
    }
    let s = site(&pages);
    let t = crawl(&s, "http://a.test/", 5, 3);
    assert_eq!(t.admitted, 3);
    assert_eq!(t.fetches.len(), 3);
    assert!(t.fetches.contains_key("http://a.test/0"));
    assert!(t.fetches.contains_key("http://a.test/1"));
    assert_eq!(t.summary.pages_visited, 3);
}

#[test]
fn failure_does_not_stop_siblings() {
    let s = site(&[
        ("http://a.test/", Some(&["http://a.test/x", "http://a.test/bad", "http://a.test/y"])),
        ("http://a.test/x", Some(&[])),
        ("http://a.test/bad", None),
        ("http://a.test/y", Some(&["http://a.test/gone"])),
        ("http://a.test/gone", None),
    ]);
    let t = crawl(&s, "http://a.test/", 2, 100);
    assert_eq!(t.summary, Summary { pages_visited: 3, pages_failed: 2 });
    assert_eq!(t.admitted, 5);
}

#[test]
fn same_url_from_two_pages_fetched_once() {
    let s = site(&[
        ("http://a.test/", Some(&["http://a.test/l", "http://a.test/r"])),
        ("http://a.test/l", Some(&["http://a.test/shared"])),
        ("http://a.test/r", Some(&["http://a.test/shared"])),
        ("http://a.test/shared", Some(&[])),
    ]);
    let t = crawl(&s, "http://a.test/", 8, 100);
    assert_eq!(t.fetches.get("http://a.test/shared"), Some(&1));
    assert_eq!(t.summary.pages_visited, 4);
}

fn tree_site() -> Site {
    site(&[
        ("http://t.test/", Some(&["http://t.test/a", "http://t.test/b", "http://t.test/c"])),
        ("http://t.test/a", Some(&["http://t.test/a1", "http://t.test/a2"])),
        ("http://t.test/b", Some(&["http://t.test/b1"])),
        ("http://t.test/c", Some(&[])),
        ("http://t.test/a1", Some(&[])),
        ("http://t.test/a2", Some(&[])),
        ("http://t.test/b1", Some(&[])),
    ])
}

#[test]
fn one_slot_serializes_and_visits_all() {
    let s = tree_site();
    let serial = crawl(&s, "http://t.test/", 1, 100);
    let wide = crawl(&s, "http://t.test/", 100, 100);
    assert_eq!(serial.max_in_flight, 1);
    assert!(wide.max_in_flight > 1);
    assert_eq!(serial.summary, wide.summary);
    assert_eq!(serial.summary.pages_visited, 7);
}

#[test]
fn zero_tasks_counts_as_one() {
    let s = tree_site();
    let t = crawl(&s, "http://t.test/", 0, 100);
    assert_eq!(t.max_in_flight, 1);
    assert_eq!(t.summary.pages_visited, 7);
}

#[test]
fn concurrency_budget_never_exceeded() {
    let s = tree_site();
    let t = crawl(&s, "http://t.test/", 2, 100);
    assert_eq!(t.max_in_flight, 2);
    assert_eq!(t.summary.pages_visited, 7);
}

#[test]
fn offer_admits_new_and_discards_seen() {
    let mut f = Frontier::new("http://a.test/".to_string(), 3, 3);
    assert!(f.accepts_discoveries());
    assert!(f.offer("http://b.test/".to_string()));
    assert!(!f.offer("http://a.test/".to_string()));
    assert!(!f.offer("http://b.test/".to_string()));
    assert_eq!(f.pages_admitted(), 2);
    assert_eq!(f.tasks_in_flight(), 2);
    assert!(f.is_visited(&"http://b.test/".to_string()));
    assert!(!f.is_visited(&"http://c.test/".to_string()));
}

#[test]
fn ceiling_and_slots_close_admission() {
    let mut f = Frontier::new("http://a.test/".to_string(), 2, 5);
    assert!(f.offer("http://b.test/".to_string()));
    assert!(!f.accepts_discoveries());
    f.complete(false);
    assert!(f.accepts_discoveries());
    let mut g = Frontier::new("http://a.test/".to_string(), 5, 1);
    assert!(!g.accepts_discoveries());
    assert!(!g.is_finished(false));
    g.complete(true);
    assert!(g.is_finished(false));
    assert!(g.is_finished(true));
}

#[test]
fn finished_only_when_idle_and_drained() {
    let mut f = Frontier::new("http://a.test/".to_string(), 2, 5);
    assert!(!f.is_finished(true));
    f.complete(true);
    assert!(!f.is_finished(false));
    assert!(f.is_finished(true));
    assert_eq!(f.summary(), Summary { pages_visited: 1, pages_failed: 0 });
}
