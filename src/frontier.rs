//! The frontier scheduler: the single-writer state that decides which
//! discovered URLs are admitted for fetching, under a concurrency budget and a
//! ceiling on the number of pages admitted over the whole run.
use vstd::prelude::*;

verus! {

/// The mathematical state of a frontier.
pub struct FrontierModel {
    /// URLs admitted so far, in admission order (the visited set).
    pub admitted: Seq<Seq<char>>,
    /// Fetch tasks admitted and not yet completed.
    pub in_flight: nat,
    /// Completed tasks whose fetch succeeded.
    pub fetched: nat,
    /// Completed tasks whose fetch failed.
    pub failed: nat,
    /// Bound on `in_flight`.
    pub max_tasks: nat,
    /// Bound on the number of admitted URLs.
    pub max_pages: nat,
}

impl FrontierModel {
    /// The state invariant: both budgets hold, no URL is admitted twice, and
    /// every admitted URL is either in flight or accounted as fetched or failed.
    pub open spec fn inv(self) -> bool {
        &&& 1 <= self.max_tasks
        &&& 1 <= self.max_pages
        &&& self.admitted.len() <= self.max_pages
        &&& self.in_flight <= self.max_tasks
        &&& self.admitted.no_duplicates()
        &&& self.fetched + self.failed + self.in_flight == self.admitted.len()
    }

    /// Whether a pending discovery may be taken from the inbox now.
    pub open spec fn accepts(self) -> bool {
        self.in_flight < self.max_tasks && self.admitted.len() < self.max_pages
    }

    /// The state after a discovered URL is taken from the inbox: admitted if
    /// it was never admitted before, else discarded.
    pub open spec fn offer(self, url: Seq<char>) -> FrontierModel {
        if self.admitted.contains(url) {
            self
        } else {
            FrontierModel {
                admitted: self.admitted.push(url),
                in_flight: self.in_flight + 1,
                ..self
            }
        }
    }

    /// The state after one in-flight task completes.
    pub open spec fn complete(self, fetched: bool) -> FrontierModel {
        FrontierModel {
            in_flight: (self.in_flight - 1) as nat,
            fetched: if fetched { self.fetched + 1 } else { self.fetched },
            failed: if fetched { self.failed } else { self.failed + 1 },
            ..self
        }
    }

    /// Whether the run is over, given whether the inbox is empty: nothing is in
    /// flight, and either no discovery is pending or none can be admitted.
    pub open spec fn finished(self, inbox_empty: bool) -> bool {
        self.in_flight == 0 && (inbox_empty || self.admitted.len() >= self.max_pages)
    }

    /// A state in which a run starts: only the root admitted and in flight.
    pub open spec fn initial(self) -> bool {
        &&& self.admitted.len() == 1
        &&& self.in_flight == 1
        &&& self.fetched == 0
        &&& self.failed == 0
        &&& 1 <= self.max_tasks
        &&& 1 <= self.max_pages
    }

    /// One move of the scheduler: an admissible discovery is taken from the
    /// inbox, or an in-flight task completes.
    pub open spec fn next(self, other: FrontierModel) -> bool {
        ||| (self.accepts() && exists|url: Seq<char>| other == self.offer(url))
        ||| (self.in_flight > 0 && exists|fetched: bool| other == self.complete(fetched))
    }
}

/// The sequence of states of one run, from its start.
pub open spec fn is_run(states: Seq<FrontierModel>) -> bool {
    &&& states.len() > 0
    &&& states[0].initial()
    &&& forall|i: int| 0 <= i < states.len() - 1 ==> #[trigger] states[i].next(states[i + 1])
}

/// Every move of the scheduler keeps the state invariant.
pub proof fn lemma_next_keeps_inv(s: FrontierModel, t: FrontierModel)
    requires
        s.inv(),
        s.next(t),
    ensures
        t.inv(),
{
    if s.accepts() && exists|url: Seq<char>| t == s.offer(url) {
        let url = choose|url: Seq<char>| t == s.offer(url);
        if !s.admitted.contains(url) {
            assert forall|i: int, j: int| 0 <= i < j < t.admitted.len() implies t.admitted[i]
                != t.admitted[j] by {
                assert(t.admitted[i] == s.admitted[i]);
                if j < s.admitted.len() {
                    assert(t.admitted[j] == s.admitted[j]);
                } else {
                    assert(s.admitted.contains(s.admitted[i]));
                }
            }
        }
    }
}

/// Every state of a run satisfies the state invariant.
pub proof fn lemma_run_inv(states: Seq<FrontierModel>)
    requires
        is_run(states),
    ensures
        forall|i: int| 0 <= i < states.len() ==> #[trigger] states[i].inv(),
{
    assert forall|i: int| 0 <= i < states.len() implies #[trigger] states[i].inv() by {
        lemma_run_inv_upto(states, i);
    }
}

proof fn lemma_run_inv_upto(states: Seq<FrontierModel>, i: int)
    requires
        is_run(states),
        0 <= i < states.len(),
    ensures
        states[i].inv(),
    decreases i,
{
    if i == 0 {
        assert(states[0].admitted.no_duplicates());
    } else {
        lemma_run_inv_upto(states, i - 1);
        assert(states[i - 1].next(states[i - 1 + 1]));
        lemma_next_keeps_inv(states[i - 1], states[i]);
    }
}

/// At every instant of a run, the pages admitted never exceed the page
/// ceiling and the tasks in flight never exceed the concurrency budget.
pub proof fn lemma_run_within_budgets(states: Seq<FrontierModel>)
    requires
        is_run(states),
    ensures
        forall|i: int|
            0 <= i < states.len() ==> #[trigger] states[i].admitted.len() <= states[i].max_pages
                && states[i].in_flight <= states[i].max_tasks,
{
    lemma_run_inv(states);
    assert forall|i: int| 0 <= i < states.len() implies #[trigger] states[i].admitted.len()
        <= states[i].max_pages && states[i].in_flight <= states[i].max_tasks by {
        assert(states[i].inv());
    }
}

/// No URL is admitted, and so fetched, more than once in a run: at every
/// instant the admitted URLs are pairwise distinct, however many times each
/// was discovered.
pub proof fn lemma_run_admits_once(states: Seq<FrontierModel>)
    requires
        is_run(states),
    ensures
        forall|i: int| 0 <= i < states.len() ==> #[trigger] states[i].admitted.no_duplicates(),
{
    lemma_run_inv(states);
    assert forall|i: int| 0 <= i < states.len() implies #[trigger] states[i].admitted.no_duplicates() by {
        assert(states[i].inv());
    }
}

proof fn lemma_run_budgets_fixed_upto(states: Seq<FrontierModel>, i: int)
    requires
        is_run(states),
        0 <= i < states.len(),
    ensures
        states[i].max_tasks == states[0].max_tasks,
        states[i].max_pages == states[0].max_pages,
    decreases i,
{
    if i > 0 {
        lemma_run_budgets_fixed_upto(states, i - 1);
        assert(states[i - 1].next(states[i - 1 + 1]));
    }
}

/// With a concurrency budget of one, fetches are strictly serialized: at no
/// instant of the run are two tasks in flight.
pub proof fn lemma_single_slot_serializes(states: Seq<FrontierModel>)
    requires
        is_run(states),
        states[0].max_tasks == 1,
    ensures
        forall|i: int| 0 <= i < states.len() ==> #[trigger] states[i].in_flight <= 1,
{
    lemma_run_inv(states);
    assert forall|i: int| 0 <= i < states.len() implies #[trigger] states[i].in_flight <= 1 by {
        lemma_run_budgets_fixed_upto(states, i);
        assert(states[i].inv());
    }
}

/// A URL discovered again after its admission is discarded: offering it
/// leaves the state unchanged, so a second fetch is never started.
pub proof fn lemma_rediscovery_discarded(s: FrontierModel, url: Seq<char>)
    requires
        s.inv(),
        s.accepts(),
        s.admitted.contains(url),
    ensures
        s.offer(url) == s,
{
}

/// The measure `2 * (max_pages - admitted) + in_flight` drops with every move
/// that changes the state, so a run makes at most `2 * max_pages` such moves
/// and ends once no admissible discovery is left.
pub proof fn lemma_next_progress(s: FrontierModel, t: FrontierModel)
    requires
        s.inv(),
        s.next(t),
        t != s,
    ensures
        t.inv(),
        progress_measure(t) < progress_measure(s),
{
    lemma_next_keeps_inv(s, t);
}

/// The measure that bounds the number of state-changing moves of a run.
pub open spec fn progress_measure(s: FrontierModel) -> int {
    2 * (s.max_pages - s.admitted.len()) + s.in_flight
}

/// A run in which the ceiling is reached while tasks are still in flight
/// admits nothing more: only completions can follow.
pub proof fn lemma_ceiling_stops_admission(s: FrontierModel)
    requires
        s.inv(),
        s.admitted.len() == s.max_pages,
    ensures
        !s.accepts(),
        forall|t: FrontierModel| s.next(t) ==> t.admitted == s.admitted,
{
}

/// The concurrency budget with 0 raised to 1.
pub open spec fn effective_tasks(max_tasks: usize) -> nat {
    if max_tasks == 0 { 1 } else { max_tasks as nat }
}

/// A summary of a finished (or ongoing) run.
#[derive(Clone, Copy, Debug, PartialEq, Eq, Structural)]
pub struct Summary {
    /// Pages whose fetch succeeded.
    pub pages_visited: usize,
    /// Pages whose fetch failed.
    pub pages_failed: usize,
}

/// The scheduler's state for one run. It is touched only by the coordinating
/// control flow; fetch tasks hand it outcomes and discovered URLs.
pub struct Frontier {
    visited: Vec<String>,
    in_flight: usize,
    fetched: usize,
    failed: usize,
    max_tasks: usize,
    max_pages: usize,
}

impl View for Frontier {
    type V = FrontierModel;

    closed spec fn view(&self) -> FrontierModel {
        FrontierModel {
            admitted: self.visited@.map_values(|u: String| u@),
            in_flight: self.in_flight as nat,
            fetched: self.fetched as nat,
            failed: self.failed as nat,
            max_tasks: self.max_tasks as nat,
            max_pages: self.max_pages as nat,
        }
    }
}

impl Frontier {
    /// Starts a run at `root`: the root is admitted and its task is in flight.
    /// A concurrency budget of 0 is raised to 1.
    pub fn new(root: String, max_tasks: usize, max_pages: usize) -> (r: Frontier)
        requires
            max_pages >= 1,
        ensures
            r@.inv(),
            r@.initial(),
            r@.admitted == seq![root@],
            r@.max_tasks == effective_tasks(max_tasks),
            r@.max_pages == max_pages,
    {
        let mut visited: Vec<String> = Vec::new();
        visited.push(root);
        let r = Frontier {
            visited,
            in_flight: 1,
            fetched: 0,
            failed: 0,
            max_tasks: if max_tasks == 0 { 1 } else { max_tasks },
            max_pages,
        };
        proof {
            assert(r@.admitted =~= seq![root@]);
        }
        r
    }

    /// Whether a pending discovery may be taken from the inbox now: a
    /// concurrency slot is free and the page ceiling is not reached.
    pub fn accepts_discoveries(&self) -> (r: bool)
        requires
            self@.inv(),
        ensures
            r == self@.accepts(),
    {
        self.in_flight < self.max_tasks && self.visited.len() < self.max_pages
    }

    /// Whether `url` has been admitted in this run.
    pub fn is_visited(&self, url: &String) -> (r: bool)
        ensures
            r == self@.admitted.contains(url@),
    {
        let mut i: usize = 0;
        while i < self.visited.len()
            invariant
                0 <= i <= self.visited.len(),
                forall|j: int| 0 <= j < i ==> self@.admitted[j] != url@,
            decreases self.visited.len() - i,
        {
            if self.visited[i] == *url {
                assert(self@.admitted[i as int] == url@);
                return true;
            }
            i += 1;
        }
        false
    }

    /// Takes one discovered URL from the inbox. It is admitted (and `true`
    /// returned, so that its fetch task is spawned) exactly when it was never
    /// admitted before; otherwise it is discarded.
    pub fn offer(&mut self, url: String) -> (admitted: bool)
        requires
            old(self)@.inv(),
            old(self)@.accepts(),
        ensures
            final(self)@.inv(),
            admitted == !old(self)@.admitted.contains(url@),
            final(self)@ == old(self)@.offer(url@),
    {
        if self.is_visited(&url) {
            false
        } else {
            let ghost before = self@;
            self.visited.push(url);
            self.in_flight = self.in_flight + 1;
            proof {
                assert(self@.admitted =~= before.admitted.push(url@));
                assert(self@ == before.offer(url@));
                assert forall|i: int, j: int|
                    0 <= i < j < self@.admitted.len() implies self@.admitted[i]
                    != self@.admitted[j] by {
                    if j == self@.admitted.len() - 1 {
                        assert(before.admitted[i] == self@.admitted[i]);
                        assert(before.admitted.contains(before.admitted[i]));
                    } else {
                        assert(before.admitted[i] == self@.admitted[i]);
                        assert(before.admitted[j] == self@.admitted[j]);
                    }
                }
            }
            true
        }
    }

    /// Records that one in-flight task completed, successfully or not. Its
    /// concurrency slot is freed; the page stays counted as admitted.
    pub fn complete(&mut self, fetched: bool)
        requires
            old(self)@.inv(),
            old(self)@.in_flight > 0,
        ensures
            final(self)@.inv(),
            final(self)@ == old(self)@.complete(fetched),
    {
        self.in_flight = self.in_flight - 1;
        if fetched {
            self.fetched = self.fetched + 1;
        } else {
            self.failed = self.failed + 1;
        }
    }

    /// Whether the run is over, given whether the discovery inbox is empty.
    pub fn is_finished(&self, inbox_empty: bool) -> (r: bool)
        requires
            self@.inv(),
        ensures
            r == self@.finished(inbox_empty),
    {
        self.in_flight == 0 && (inbox_empty || self.visited.len() >= self.max_pages)
    }

    /// Number of tasks in flight.
    pub fn tasks_in_flight(&self) -> (r: usize)
        ensures
            r == self@.in_flight,
    {
        self.in_flight
    }

    /// Number of URLs admitted so far, the root included.
    pub fn pages_admitted(&self) -> (r: usize)
        ensures
            r == self@.admitted.len(),
    {
        self.visited.len()
    }

    /// The pages visited and failed so far.
    pub fn summary(&self) -> (r: Summary)
        ensures
            r.pages_visited == self@.fetched,
            r.pages_failed == self@.failed,
    {
        Summary { pages_visited: self.fetched, pages_failed: self.failed }
    }
}

} // verus!
