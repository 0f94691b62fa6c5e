//! A run of the scheduler over a site, with the fetch tasks and the discovery
//! inbox around the frontier: what pages a finished run has visited.
use vstd::prelude::*;

use crate::frontier::FrontierModel;

verus! {

/// The state of a run: the frontier, the URLs of the tasks in flight, and the
/// discoveries waiting in the inbox, oldest first.
pub struct CrawlState {
    pub frontier: FrontierModel,
    pub tasks: Seq<Seq<char>>,
    pub inbox: Seq<Seq<char>>,
}

/// The state after the task at `i` completes with a fetched page, whose links
/// (`links` of its URL) join the inbox in page order.
pub open spec fn task_completed(
    links: spec_fn(Seq<char>) -> Seq<Seq<char>>,
    s: CrawlState,
    i: int,
) -> CrawlState {
    CrawlState {
        frontier: s.frontier.complete(true),
        tasks: s.tasks.remove(i),
        inbox: s.inbox + links(s.tasks[i]),
    }
}

/// The state after the oldest discovery is taken from the inbox.
pub open spec fn discovery_taken(s: CrawlState) -> CrawlState {
    let url = s.inbox[0];
    CrawlState {
        frontier: s.frontier.offer(url),
        tasks: if s.frontier.admitted.contains(url) {
            s.tasks
        } else {
            s.tasks.push(url)
        },
        inbox: s.inbox.drop_first(),
    }
}

/// One move of a run over a site where every fetch succeeds: a task
/// completes, or an admissible discovery is taken from the inbox.
pub open spec fn crawl_next(
    links: spec_fn(Seq<char>) -> Seq<Seq<char>>,
    s: CrawlState,
    t: CrawlState,
) -> bool {
    ||| (s.frontier.accepts() && s.inbox.len() > 0 && t == discovery_taken(s))
    ||| exists|i: int| 0 <= i < s.tasks.len() && t == #[trigger] task_completed(links, s, i)
}

/// The states of a run from `root`, from its start.
pub open spec fn is_crawl(
    links: spec_fn(Seq<char>) -> Seq<Seq<char>>,
    root: Seq<char>,
    states: Seq<CrawlState>,
) -> bool {
    &&& states.len() > 0
    &&& states[0].frontier.initial()
    &&& states[0].frontier.admitted == seq![root]
    &&& states[0].tasks == seq![root]
    &&& states[0].inbox == Seq::<Seq<char>>::empty()
    &&& forall|i: int| 0 <= i < states.len() - 1 ==> #[trigger] crawl_next(links, states[i], states[i + 1])
}

/// A finished run: no task in flight and no discovery waiting.
pub open spec fn crawl_done(s: CrawlState) -> bool {
    s.frontier.in_flight == 0 && s.inbox.len() == 0
}

/// The admitted URLs that are closed under the links: each link of an
/// admitted page is admitted.
pub open spec fn link_closed(links: spec_fn(Seq<char>) -> Seq<Seq<char>>, a: Seq<Seq<char>>) -> bool {
    forall|k: int, m: int|
        0 <= k < a.len() && 0 <= m < links(a[k]).len() ==> a.contains(#[trigger] links(a[k])[m])
}

/// Each admitted URL but the first was linked from a page admitted before it.
pub open spec fn linked_from_earlier(
    links: spec_fn(Seq<char>) -> Seq<Seq<char>>,
    a: Seq<Seq<char>>,
) -> bool {
    forall|k: int| 0 < k < a.len() ==> #[trigger] linked_before(links, a, k)
}

/// The URL at `k` is a link of a page at an earlier position of `a`.
pub open spec fn linked_before(links: spec_fn(Seq<char>) -> Seq<Seq<char>>, a: Seq<Seq<char>>, k: int) -> bool {
    exists|j: int| 0 <= j < k && #[trigger] links(a[j]).contains(a[k])
}

/// `url` is a link of a page in `a`.
pub open spec fn linked_from(links: spec_fn(Seq<char>) -> Seq<Seq<char>>, a: Seq<Seq<char>>, url: Seq<char>) -> bool {
    exists|j: int| 0 <= j < a.len() && #[trigger] links(a[j]).contains(url)
}

spec fn crawl_inv(links: spec_fn(Seq<char>) -> Seq<Seq<char>>, root: Seq<char>, s: CrawlState) -> bool {
    let a = s.frontier.admitted;
    &&& s.frontier.inv()
    &&& s.frontier.failed == 0
    &&& a.len() > 0
    &&& a[0] == root
    &&& s.tasks.len() == s.frontier.in_flight
    &&& forall|i: int| 0 <= i < s.tasks.len() ==> a.contains(#[trigger] s.tasks[i])
    &&& forall|k: int, m: int|
        0 <= k < a.len() && !s.tasks.contains(a[k]) && 0 <= m < links(a[k]).len() ==> a.contains(
            #[trigger] links(a[k])[m],
        ) || s.inbox.contains(links(a[k])[m])
    &&& linked_from_earlier(links, a)
    &&& forall|m: int| 0 <= m < s.inbox.len() ==> #[trigger] linked_from(links, a, s.inbox[m])
}

proof fn lemma_discovery_step(
    links: spec_fn(Seq<char>) -> Seq<Seq<char>>,
    root: Seq<char>,
    s: CrawlState,
)
    requires
        crawl_inv(links, root, s),
        s.frontier.accepts(),
        s.inbox.len() > 0,
    ensures
        crawl_inv(links, root, discovery_taken(s)),
{
    let t = discovery_taken(s);
    assert(s.frontier.next(t.frontier));
    let a = s.frontier.admitted;
    let b = t.frontier.admitted;
    let url = s.inbox[0];
    crate::frontier::lemma_next_keeps_inv(s.frontier, t.frontier);
    assert forall|x: Seq<char>| a.contains(x) implies b.contains(x) by {
        let k = choose|k: int| 0 <= k < a.len() && #[trigger] a[k] == x;
        assert(b[k] == x);
    }
    assert(b.contains(url)) by {
        if !a.contains(url) {
            assert(b[a.len() as int] == url);
        }
    }
    assert forall|i: int| 0 <= i < t.tasks.len() implies b.contains(#[trigger] t.tasks[i]) by {
        if i < s.tasks.len() {
            assert(t.tasks[i] == s.tasks[i]);
        }
    }
    assert forall|k: int, m: int|
        0 <= k < b.len() && !t.tasks.contains(b[k]) && 0 <= m < links(b[k]).len() implies b.contains(
        #[trigger] links(b[k])[m],
    ) || t.inbox.contains(links(b[k])[m]) by {
        let v = links(b[k])[m];
        if k == a.len() {
            assert(t.tasks[s.tasks.len() as int] == b[k]);
        } else {
            assert(b[k] == a[k]);
            if s.tasks.contains(a[k]) {
                let p = choose|p: int| 0 <= p < s.tasks.len() && s.tasks[p] == a[k];
                assert(t.tasks[p] == a[k]);
            }
            if !a.contains(v) && v != url {
                let p = choose|p: int| 0 <= p < s.inbox.len() && s.inbox[p] == v;
                assert(p != 0);
                assert(t.inbox[p - 1] == v);
            }
        }
    }
    assert forall|k: int| 0 < k < b.len() implies #[trigger] linked_before(links, b, k) by {
        if k < a.len() {
            assert(linked_before(links, a, k));
            let j = choose|j: int| 0 <= j < k && #[trigger] links(a[j]).contains(a[k]);
            assert(b[j] == a[j] && b[k] == a[k]);
            assert(links(b[j]).contains(b[k]));
        } else {
            assert(linked_from(links, a, s.inbox[0]));
            let j = choose|j: int| 0 <= j < a.len() && #[trigger] links(a[j]).contains(s.inbox[0]);
            assert(b[j] == a[j]);
            assert(b[k] == s.inbox[0]);
            assert(links(b[j]).contains(b[k]));
        }
    }
    assert forall|m: int| 0 <= m < t.inbox.len() implies #[trigger] linked_from(links, b, t.inbox[m]) by {
        assert(t.inbox[m] == s.inbox[m + 1]);
        assert(linked_from(links, a, s.inbox[m + 1]));
        let j = choose|j: int| 0 <= j < a.len() && #[trigger] links(a[j]).contains(s.inbox[m + 1]);
        assert(b[j] == a[j]);
        assert(links(b[j]).contains(t.inbox[m]));
    }
}

proof fn lemma_completion_step(
    links: spec_fn(Seq<char>) -> Seq<Seq<char>>,
    root: Seq<char>,
    s: CrawlState,
    i: int,
)
    requires
        crawl_inv(links, root, s),
        0 <= i < s.tasks.len(),
    ensures
        crawl_inv(links, root, task_completed(links, s, i)),
{
    let t = task_completed(links, s, i);
    let a = s.frontier.admitted;
    let b = t.frontier.admitted;
    let u = s.tasks[i];
    assert(b == a);
    assert(s.frontier.in_flight > 0);
    assert forall|p: int| 0 <= p < t.tasks.len() implies b.contains(#[trigger] t.tasks[p]) by {
        if p < i {
            assert(t.tasks[p] == s.tasks[p]);
        } else {
            assert(t.tasks[p] == s.tasks[p + 1]);
        }
    }
    assert forall|k: int, m: int|
        0 <= k < b.len() && !t.tasks.contains(b[k]) && 0 <= m < links(b[k]).len() implies b.contains(
        #[trigger] links(b[k])[m],
    ) || t.inbox.contains(links(b[k])[m]) by {
        let v = links(b[k])[m];
        if b[k] == u {
            assert(t.inbox[s.inbox.len() + m] == v);
        } else {
            if s.tasks.contains(a[k]) {
                let p = choose|p: int| 0 <= p < s.tasks.len() && s.tasks[p] == a[k];
                assert(p != i);
                if p < i {
                    assert(t.tasks[p] == a[k]);
                } else {
                    assert(t.tasks[p - 1] == a[k]);
                }
            }
            if !a.contains(v) {
                let p = choose|p: int| 0 <= p < s.inbox.len() && s.inbox[p] == v;
                assert(t.inbox[p] == v);
            }
        }
    }
    assert(a.contains(u));
    let ju = choose|j: int| 0 <= j < a.len() && a[j] == u;
    assert forall|m: int| 0 <= m < t.inbox.len() implies #[trigger] linked_from(links, b, t.inbox[m]) by {
        if m < s.inbox.len() {
            assert(t.inbox[m] == s.inbox[m]);
            assert(linked_from(links, a, s.inbox[m]));
            let j = choose|j: int| 0 <= j < a.len() && #[trigger] links(a[j]).contains(s.inbox[m]);
            assert(links(b[j]).contains(t.inbox[m]));
        } else {
            assert(t.inbox[m] == links(u)[m - s.inbox.len()]);
            assert(b[ju] == u);
            assert(links(b[ju]).contains(t.inbox[m]));
        }
    }
}

proof fn lemma_crawl_step(
    links: spec_fn(Seq<char>) -> Seq<Seq<char>>,
    root: Seq<char>,
    s: CrawlState,
    t: CrawlState,
)
    requires
        crawl_inv(links, root, s),
        crawl_next(links, s, t),
    ensures
        crawl_inv(links, root, t),
{
    if s.frontier.accepts() && s.inbox.len() > 0 && t == discovery_taken(s) {
        lemma_discovery_step(links, root, s);
    } else {
        let i = choose|i: int| 0 <= i < s.tasks.len() && t == #[trigger] task_completed(links, s, i);
        lemma_completion_step(links, root, s, i);
    }
}

proof fn lemma_crawl_inv_upto(
    links: spec_fn(Seq<char>) -> Seq<Seq<char>>,
    root: Seq<char>,
    states: Seq<CrawlState>,
    i: int,
)
    requires
        is_crawl(links, root, states),
        0 <= i < states.len(),
    ensures
        crawl_inv(links, root, states[i]),
    decreases i,
{
    if i == 0 {
        let s = states[0];
        assert(s.frontier.admitted.no_duplicates());
        assert forall|k: int, m: int|
            0 <= k < s.frontier.admitted.len() && !s.tasks.contains(s.frontier.admitted[k]) && 0 <= m
                < links(s.frontier.admitted[k]).len() implies s.frontier.admitted.contains(
            #[trigger] links(s.frontier.admitted[k])[m],
        ) || s.inbox.contains(links(s.frontier.admitted[k])[m]) by {
            assert(s.tasks[0] == s.frontier.admitted[k]);
        }
        assert forall|p: int| 0 <= p < s.tasks.len() implies s.frontier.admitted.contains(
            #[trigger] s.tasks[p],
        ) by {
            assert(s.frontier.admitted[0] == s.tasks[p]);
        }
    } else {
        lemma_crawl_inv_upto(links, root, states, i - 1);
        assert(crawl_next(links, states[i - 1], states[i - 1 + 1]));
        lemma_crawl_step(links, root, states[i - 1], states[i]);
    }
}

/// A finished run over a site where every fetch succeeds has admitted the
/// root, each page once, and each link of every admitted page; every page but
/// the root was linked from a page admitted before it; none failed.
pub proof fn lemma_finished_run_is_closed(
    links: spec_fn(Seq<char>) -> Seq<Seq<char>>,
    root: Seq<char>,
    states: Seq<CrawlState>,
)
    requires
        is_crawl(links, root, states),
        crawl_done(states.last()),
    ensures
        states.last().frontier.admitted.len() > 0,
        states.last().frontier.admitted[0] == root,
        states.last().frontier.admitted.no_duplicates(),
        link_closed(links, states.last().frontier.admitted),
        linked_from_earlier(links, states.last().frontier.admitted),
        states.last().frontier.fetched == states.last().frontier.admitted.len(),
{
    lemma_crawl_inv_upto(links, root, states, states.len() - 1);
    let s = states.last();
    let a = s.frontier.admitted;
    assert forall|k: int, m: int| 0 <= k < a.len() && 0 <= m < links(a[k]).len() implies a.contains(
        #[trigger] links(a[k])[m],
    ) by {
        assert(!s.tasks.contains(a[k]));
        assert(!s.inbox.contains(links(a[k])[m]));
    }
}

proof fn lemma_reached_within(
    links: spec_fn(Seq<char>) -> Seq<Seq<char>>,
    a: Seq<Seq<char>>,
    b: Seq<Seq<char>>,
    k: int,
)
    requires
        a.len() > 0,
        b.contains(a[0]),
        linked_from_earlier(links, a),
        link_closed(links, b),
        0 <= k < a.len(),
    ensures
        b.contains(a[k]),
    decreases k,
{
    if k > 0 {
        assert(linked_before(links, a, k));
        let j = choose|j: int| 0 <= j < k && #[trigger] links(a[j]).contains(a[k]);
        lemma_reached_within(links, a, b, j);
        let p = choose|p: int| 0 <= p < b.len() && b[p] == a[j];
        let m = choose|m: int| 0 <= m < links(a[j]).len() && #[trigger] links(a[j])[m] == a[k];
        assert(b.contains(links(b[p])[m]));
    }
}

/// Two finished runs from the same root over the same site, where every fetch
/// succeeds, visit the same set of pages and the same number of them,
/// whatever their concurrency budgets and page ceilings: a run with one slot
/// visits what an unbounded one does.
pub proof fn lemma_finished_runs_agree(
    links: spec_fn(Seq<char>) -> Seq<Seq<char>>,
    root: Seq<char>,
    run1: Seq<CrawlState>,
    run2: Seq<CrawlState>,
)
    requires
        is_crawl(links, root, run1),
        is_crawl(links, root, run2),
        crawl_done(run1.last()),
        crawl_done(run2.last()),
    ensures
        run1.last().frontier.admitted.to_set() == run2.last().frontier.admitted.to_set(),
        run1.last().frontier.fetched == run2.last().frontier.fetched,
{
    let a = run1.last().frontier.admitted;
    let b = run2.last().frontier.admitted;
    lemma_finished_run_is_closed(links, root, run1);
    lemma_finished_run_is_closed(links, root, run2);
    assert(a[0] == b[0]);
    assert(a.contains(b[0]));
    assert(b.contains(a[0]));
    assert forall|x: Seq<char>| a.to_set().contains(x) <==> b.to_set().contains(x) by {
        if a.contains(x) {
            let k = choose|k: int| 0 <= k < a.len() && #[trigger] a[k] == x;
            lemma_reached_within(links, a, b, k);
        }
        if b.contains(x) {
            let k = choose|k: int| 0 <= k < b.len() && #[trigger] b[k] == x;
            lemma_reached_within(links, b, a, k);
        }
    }
    assert(a.to_set() =~= b.to_set());
    a.unique_seq_to_set();
    b.unique_seq_to_set();
}

} // verus!
