//! The refresh of many feeds at once: which feeds are fetched, how many
//! fetches run at a time, and how the results come back into the store.
//!
//! The batch decides and the caller acts. The caller asks for the next job
//! and starts a fetch for it, hands each result back when the fetch ends,
//! and applies the batch to the store once every fetch has ended.

use vstd::prelude::*;

use crate::refresh::{
    lemma_fetch_leaves_others, lemma_success_replaces, needs_refresh, outcome_view, stamped_all,
    FetchedFeed, FetchedFeedView,
};
use crate::retention::{count_of, of_feed, trimmed_history};
use crate::seq_lemmas::{
    lemma_filter_all, lemma_filter_none, lemma_filter_positions, lemma_filter_remove,
};
use crate::state::{FeedView, State, StateView};
use crate::time::{now, Timestamp};

verus! {

/// How many fetches run at a time unless the caller says otherwise.
pub const DEFAULT_FETCH_CEILING: usize = 20;

/// What a fetch has to know of a feed: a copy, taken when the batch was
/// planned, so that nothing of the store is held while the fetch runs.
#[derive(Debug, Clone, PartialEq, Eq)]
pub struct FetchJob {
    /// The number under which the result is handed back.
    pub ticket: usize,
    /// The position of the feed in the store.
    pub index: usize,
    pub url: String,
}

/// A job as a mathematical value.
#[verifier::ext_equal]
pub struct JobView {
    pub index: int,
    pub url: Seq<char>,
}

/// A batch as a mathematical value.
#[verifier::ext_equal]
pub struct BatchView {
    /// The feeds to fetch, in the order in which they were asked for. A
    /// job's ticket is its position here.
    pub jobs: Seq<JobView>,
    /// The tickets of the fetches that are running.
    pub in_flight: Seq<int>,
    /// The results so far, each with its ticket, in the order in which
    /// they came back.
    pub results: Seq<(int, Result<FetchedFeedView, Seq<char>>)>,
    /// The time at which the batch was planned.
    pub now: Timestamp,
    /// How many fetches may run at a time.
    pub ceiling: nat,
    /// How many feeds the store had when the batch was planned.
    pub feed_count: nat,
}

/// Holds of every ticket but `ticket`.
pub open spec fn other_than(ticket: int) -> spec_fn(int) -> bool {
    |t: int| t != ticket
}

impl BatchView {
    /// How many jobs have been handed out.
    pub open spec fn started(self) -> int {
        (self.in_flight.len() + self.results.len()) as int
    }

    /// A job is left and the ceiling leaves room for it.
    pub open spec fn can_start(self) -> bool {
        self.started() < self.jobs.len() && self.in_flight.len() < self.ceiling
    }

    /// Every job was handed out and every fetch has ended.
    pub open spec fn is_finished(self) -> bool {
        self.started() == self.jobs.len() && self.in_flight.len() == 0
    }

    /// The batch after its next job was handed out.
    pub open spec fn with_next_started(self) -> BatchView {
        BatchView { in_flight: self.in_flight.push(self.started()), ..self }
    }

    /// The batch after the fetch with the ticket `ticket` ended in
    /// `outcome`.
    pub open spec fn with_completed(
        self,
        ticket: int,
        outcome: Result<FetchedFeedView, Seq<char>>,
    ) -> BatchView {
        BatchView {
            in_flight: self.in_flight.filter(other_than(ticket)),
            results: self.results.push((ticket, outcome)),
            ..self
        }
    }

    /// What holds of a batch at every moment: no more fetches run than the
    /// ceiling allows; each ticket handed out so far is either running or
    /// has its result, never both and never twice; and every job names a
    /// feed of the store.
    pub open spec fn wf(self) -> bool {
        &&& self.in_flight.len() <= self.ceiling
        &&& self.started() <= self.jobs.len()
        &&& forall|i: int|
            0 <= i < self.in_flight.len() ==> 0 <= #[trigger] self.in_flight[i] < self.started()
        &&& forall|i: int, j: int|
            0 <= i < j < self.in_flight.len() ==> self.in_flight[i] != self.in_flight[j]
        &&& forall|i: int|
            0 <= i < self.results.len() ==> 0 <= (#[trigger] self.results[i]).0 < self.started()
        &&& forall|i: int, j: int|
            0 <= i < j < self.results.len() ==> self.results[i].0 != self.results[j].0
        &&& forall|i: int, j: int|
            0 <= i < self.in_flight.len() && 0 <= j < self.results.len()
                ==> self.in_flight[i] != self.results[j].0
        &&& forall|i: int|
            0 <= i < self.jobs.len() ==> 0 <= (#[trigger] self.jobs[i]).index < self.feed_count
    }
}

/// Holds of the positions of the feeds that are due for a refresh.
pub open spec fn is_due(s: StateView, now: Timestamp, refresh_age_mins: u64) -> spec_fn(
    usize,
) -> bool {
    |i: usize| i < s.feeds.len() && s.feeds[i as int].is_stale(now, refresh_age_mins)
}

/// The job for the feed at a position.
pub open spec fn job_for(s: StateView) -> spec_fn(usize) -> JobView {
    |i: usize| JobView { index: i as int, url: s.feeds[i as int].url }
}

/// The jobs of a batch over the candidates `indices`: one for each
/// candidate that is due, in the candidates' order.
pub open spec fn stale_jobs(
    s: StateView,
    indices: Seq<usize>,
    now: Timestamp,
    refresh_age_mins: u64,
) -> Seq<JobView> {
    indices.filter(is_due(s, now, refresh_age_mins)).map_values(job_for(s))
}

/// The batch as it is planned: no fetch runs and no result is there.
pub open spec fn planned(
    s: StateView,
    indices: Seq<usize>,
    now: Timestamp,
    refresh_age_mins: u64,
    ceiling: usize,
) -> BatchView {
    BatchView {
        jobs: stale_jobs(s, indices, now, refresh_age_mins),
        in_flight: Seq::empty(),
        results: Seq::empty(),
        now,
        ceiling: ceiling as nat,
        feed_count: s.feeds.len(),
    }
}

/// The store after the results were applied one after the other, in the
/// order in which they came back.
pub open spec fn applied(
    s: StateView,
    jobs: Seq<JobView>,
    results: Seq<(int, Result<FetchedFeedView, Seq<char>>)>,
    now: Timestamp,
    seen_at: Timestamp,
    max: nat,
) -> StateView
    decreases results.len(),
{
    if results.len() == 0 {
        s
    } else {
        applied(s, jobs, results.drop_last(), now, seen_at, max).after_fetch(
            jobs[results.last().0].index,
            results.last().1,
            now,
            seen_at,
            max,
        )
    }
}

/// A job as the batch keeps it.
struct Job {
    index: usize,
    url: String,
}

impl View for Job {
    type V = JobView;

    closed spec fn view(&self) -> JobView {
        JobView { index: self.index as int, url: self.url@ }
    }
}

/// One refresh of many feeds.
pub struct RefreshBatch {
    jobs: Vec<Job>,
    in_flight: Vec<usize>,
    results: Vec<(usize, Result<FetchedFeed, String>)>,
    now: Timestamp,
    ceiling: usize,
    feed_count: usize,
}

impl View for RefreshBatch {
    type V = BatchView;

    closed spec fn view(&self) -> BatchView {
        BatchView {
            jobs: job_views(self.jobs@),
            in_flight: ticket_views(self.in_flight@),
            results: result_views(self.results@),
            now: self.now,
            ceiling: self.ceiling as nat,
            feed_count: self.feed_count as nat,
        }
    }
}

/// The views of the jobs that a batch keeps.
spec fn job_views(jobs: Seq<Job>) -> Seq<JobView> {
    Seq::new(jobs.len(), |i: int| jobs[i]@)
}

/// The tickets that are in flight, as mathematical integers.
spec fn ticket_views(tickets: Seq<usize>) -> Seq<int> {
    Seq::new(tickets.len(), |i: int| tickets[i] as int)
}

/// The views of the results that a batch keeps.
spec fn result_views(results: Seq<(usize, Result<FetchedFeed, String>)>) -> Seq<
    (int, Result<FetchedFeedView, Seq<char>>),
> {
    Seq::new(results.len(), |i: int| (results[i].0 as int, outcome_view(results[i].1)))
}

/// The position of `ticket` in `tickets`.
fn position_of(tickets: &Vec<usize>, ticket: usize) -> (r: Option<usize>)
    ensures
        match r {
            Some(p) => p < tickets.len() && tickets[p as int] == ticket,
            None => forall|j: int| 0 <= j < tickets.len() ==> tickets[j] != ticket,
        },
{
    let mut p: usize = 0;
    while p < tickets.len()
        invariant
            p <= tickets.len(),
            forall|j: int| 0 <= j < p ==> tickets[j] != ticket,
        decreases tickets.len() - p,
    {
        if tickets[p] == ticket {
            return Some(p);
        }
        p += 1;
    }
    None
}

/// Moves the ticket at `pos` from the fetches in flight to the results.
fn settle(
    in_flight: &mut Vec<usize>,
    results: &mut Vec<(usize, Result<FetchedFeed, String>)>,
    pos: usize,
    outcome: Result<FetchedFeed, String>,
)
    requires
        pos < old(in_flight).len(),
        forall|i: int, j: int|
            0 <= i < j < old(in_flight).len() ==> old(in_flight)[i] != old(in_flight)[j],
    ensures
        ticket_views(final(in_flight)@) == ticket_views(old(in_flight)@).filter(
            other_than(old(in_flight)[pos as int] as int),
        ),
        final(in_flight).len() + 1 == old(in_flight).len(),
        result_views(final(results)@) == result_views(old(results)@).push(
            (old(in_flight)[pos as int] as int, outcome_view(outcome)),
        ),
{
    let ghost before = ticket_views(in_flight@);
    let ghost kept = result_views(results@);
    let ticket = in_flight.remove(pos);
    results.push((ticket, outcome));
    proof {
        let keep = other_than(ticket as int);
        let a = before.take(pos as int);
        let b = before.skip(pos + 1);
        let one = Seq::<int>::empty().push(ticket as int);
        assert(before =~= a + one + b);
        assert(ticket_views(in_flight@) =~= a + b);
        lemma_filter_all(a, keep);
        lemma_filter_all(b, keep);
        lemma_filter_none(one, keep);
        Seq::filter_distributes_over_add(a + one, b, keep);
        Seq::filter_distributes_over_add(a, one, keep);
        assert(a + Seq::<int>::empty() =~= a);
        assert(result_views(results@) =~= kept.push((ticket as int, outcome_view(outcome))));
    }
}

impl RefreshBatch {
    /// Plans the refresh of the feeds at the positions `indices` as of the
    /// time `now`: a job for each of them that was never fetched or was
    /// last fetched `refresh_age_mins` minutes ago or more. A position that
    /// names no feed is passed over. At most `ceiling` fetches will run at
    /// a time.
    pub fn plan_at(
        state: &State,
        indices: &Vec<usize>,
        now: Timestamp,
        refresh_age_mins: u64,
        ceiling: usize,
    ) -> (batch: RefreshBatch)
        ensures
            batch@ == planned(state@, indices@, now, refresh_age_mins, ceiling),
            batch@.wf(),
    {
        let mut jobs: Vec<Job> = Vec::new();
        let mut k: usize = 0;
        let ghost due = is_due(state@, now, refresh_age_mins);
        proof {
            assert(indices@.take(0).filter(due) =~= Seq::<usize>::empty()) by {
                reveal(Seq::filter);
            }
            assert(job_views(jobs@) =~= stale_jobs(
                state@,
                indices@.take(0),
                now,
                refresh_age_mins,
            ));
        }
        while k < indices.len()
            invariant
                k <= indices.len(),
                due == is_due(state@, now, refresh_age_mins),
                job_views(jobs@) == stale_jobs(
                    state@,
                    indices@.take(k as int),
                    now,
                    refresh_age_mins,
                ),
                forall|j: int| 0 <= j < jobs.len() ==> (#[trigger] jobs[j]).index < state.feeds.len(),
            decreases indices.len() - k,
        {
            let idx = indices[k];
            proof {
                let seen = indices@.take(k as int);
                assert(indices@.take(k + 1) =~= seen.push(idx));
                seen.lemma_filter_push(idx, due);
                seen.filter(due).lemma_push_map_commute(job_for(state@), idx);
            }
            if idx < state.feeds.len() && needs_refresh(&state.feeds[idx], &now, refresh_age_mins) {
                let ghost so_far = jobs@;
                let job = Job { index: idx, url: state.feeds[idx].url.clone() };
                proof {
                    assert(job@ =~= job_for(state@)(idx));
                }
                jobs.push(job);
                proof {
                    assert(job_views(jobs@) =~= job_views(so_far).push(job_for(state@)(idx)));
                }
            }
            k += 1;
        }
        proof {
            assert(indices@.take(k as int) == indices@);
        }
        let batch = RefreshBatch {
            jobs,
            in_flight: Vec::new(),
            results: Vec::new(),
            now,
            ceiling,
            feed_count: state.feeds.len(),
        };
        proof {
            assert(batch@ =~= planned(state@, indices@, now, refresh_age_mins, ceiling));
        }
        batch
    }

    /// Plans the refresh as of the time that the system clock gives.
    pub fn plan(state: &State, indices: &Vec<usize>, refresh_age_mins: u64, ceiling: usize) -> (batch:
        RefreshBatch)
        ensures
            batch@ == planned(state@, indices@, batch@.now, refresh_age_mins, ceiling),
            batch@.wf(),
    {
        let t = now();
        Self::plan_at(state, indices, t, refresh_age_mins, ceiling)
    }

    /// How many fetches are running.
    pub fn in_flight(&self) -> (n: usize)
        ensures
            n == self@.in_flight.len(),
    {
        self.in_flight.len()
    }

    /// How many fetches may run at a time.
    pub fn ceiling(&self) -> (n: usize)
        ensures
            n == self@.ceiling,
    {
        self.ceiling
    }

    /// How many feeds the store had when the batch was planned.
    pub fn feed_count(&self) -> (n: usize)
        ensures
            n == self@.feed_count,
    {
        self.feed_count
    }

    /// How many feeds the batch fetches.
    pub fn job_count(&self) -> (n: usize)
        ensures
            n == self@.jobs.len(),
    {
        self.jobs.len()
    }

    /// The time at which the batch was planned.
    pub fn planned_at(&self) -> (t: Timestamp)
        ensures
            t == self@.now,
    {
        self.now
    }

    /// Whether every job was handed out and every fetch has ended.
    pub fn is_finished(&self) -> (b: bool)
        ensures
            b == self@.is_finished(),
    {
        self.in_flight.len() == 0 && self.results.len() == self.jobs.len()
    }

    /// Hands out the next job, where one is left and fewer fetches run
    /// than the ceiling allows. The caller starts the fetch, and hands its
    /// result back under the job's ticket.
    pub fn next_job(&mut self) -> (r: Option<FetchJob>)
        requires
            old(self)@.wf(),
        ensures
            r is Some <==> old(self)@.can_start(),
            match r {
                Some(job) => {
                    &&& job.ticket == old(self)@.started()
                    &&& job.index == old(self)@.jobs[job.ticket as int].index
                    &&& job.url@ == old(self)@.jobs[job.ticket as int].url
                    &&& final(self)@ == old(self)@.with_next_started()
                },
                None => final(self)@ == old(self)@,
            },
            final(self)@.in_flight.len() <= final(self)@.ceiling,
            final(self)@.wf(),
    {
        proof {
            assert(self@.started() == self.in_flight.len() + self.results.len());
            assert(self@.jobs.len() == self.jobs.len());
        }
        let started = self.in_flight.len() + self.results.len();
        if started < self.jobs.len() && self.in_flight.len() < self.ceiling {
            let job = FetchJob {
                ticket: started,
                index: self.jobs[started].index,
                url: self.jobs[started].url.clone(),
            };
            let ghost before = self@;
            self.in_flight.push(started);
            proof {
                assert(self@ =~= before.with_next_started());
            }
            Some(job)
        } else {
            None
        }
    }

    /// Takes the result of the fetch that runs under `ticket`. Returns
    /// whether such a fetch was running; where none was, nothing changes.
    pub fn complete(&mut self, ticket: usize, outcome: Result<FetchedFeed, String>) -> (accepted:
        bool)
        requires
            old(self)@.wf(),
        ensures
            accepted == old(self)@.in_flight.contains(ticket as int),
            final(self)@ == if accepted {
                old(self)@.with_completed(ticket as int, outcome_view(outcome))
            } else {
                old(self)@
            },
            final(self)@.in_flight.len() <= final(self)@.ceiling,
            accepted ==> final(self)@.in_flight.len() + 1 == old(self)@.in_flight.len(),
            final(self)@.wf(),
    {
        let ghost before = self@;
        match position_of(&self.in_flight, ticket) {
            None => {
                proof {
                    assert(!before.in_flight.contains(ticket as int)) by {
                        if before.in_flight.contains(ticket as int) {
                            let j = choose|j: int|
                                0 <= j < before.in_flight.len() && before.in_flight[j]
                                    == ticket as int;
                            assert(self.in_flight@[j] == ticket);
                        }
                    }
                }
                false
            },
            Some(pos) => {
                proof {
                    assert(before.in_flight[pos as int] == ticket as int);
                    assert forall|i: int, j: int|
                        0 <= i < j < self.in_flight.len() implies self.in_flight[i]
                        != self.in_flight[j] by {
                        assert(before.in_flight[i] != before.in_flight[j]);
                    }
                }
                settle(&mut self.in_flight, &mut self.results, pos, outcome);
                proof {
                    let after = before.with_completed(ticket as int, outcome_view(outcome));
                    assert(self@.in_flight =~= after.in_flight);
                    assert(self@.results =~= after.results);
                    assert(self@ =~= after);
                    lemma_completed_wf(before, ticket as int, outcome_view(outcome));
                }
                true
            },
        }
    }

    /// Applies every result to the store, one after the other, in the
    /// order in which the results came back. The fetched items enter the
    /// store as first seen at `seen_at`, and each refreshed feed is cut
    /// down to `max_history` items.
    pub fn apply_at(self, state: &mut State, seen_at: Timestamp, max_history: usize)
        requires
            self@.wf(),
            self@.is_finished(),
            old(state).feeds.len() == self@.feed_count,
        ensures
            final(state)@ == applied(
                old(state)@,
                self@.jobs,
                self@.results,
                self@.now,
                seen_at,
                max_history as nat,
            ),
            final(state).feeds.len() == old(state).feeds.len(),
            old(state)@.wf() ==> final(state)@.wf(),
    {
        let ghost view = self@;
        let RefreshBatch { jobs, in_flight: _, results, now, ceiling: _, feed_count: _ } = self;
        let ghost all = results@;
        proof {
            assert(job_views(jobs@) =~= view.jobs);
            assert(result_views(all) =~= view.results);
            assert(result_views(all.take(0)) =~= Seq::empty());
        }
        for entry in it: results
            invariant
                it.seq() == all,
                job_views(jobs@) == view.jobs,
                result_views(all) == view.results,
                view.wf(),
                view.now == now,
                state.feeds.len() == view.feed_count,
                state@ == applied(
                    old(state)@,
                    view.jobs,
                    result_views(all.take(it.index())),
                    now,
                    seen_at,
                    max_history as nat,
                ),
                old(state)@.wf() ==> state@.wf(),
        {
            let ghost k = it.index();
            let (ticket, outcome) = entry;
            proof {
                let done = result_views(all.take(k + 1));
                assert(done.drop_last() =~= result_views(all.take(k)));
                assert(done.last() == (ticket as int, outcome_view(outcome)));
                assert(view.results[k] == done.last());
                assert(view.jobs[ticket as int] == jobs@[ticket as int]@);
            }
            let idx = jobs[ticket].index;
            state.apply_fetch(idx, outcome, now, seen_at, max_history);
        }
        proof {
            assert(all.take(all.len() as int) == all);
        }
    }

    /// Applies every result to the store; the fetched items enter it as
    /// first seen at the time that the system clock gives.
    pub fn apply(self, state: &mut State, max_history: usize)
        requires
            self@.wf(),
            self@.is_finished(),
            old(state).feeds.len() == self@.feed_count,
        ensures
            exists|seen_at: Timestamp|
                final(state)@ == #[trigger] applied(
                    old(state)@,
                    self@.jobs,
                    self@.results,
                    self@.now,
                    seen_at,
                    max_history as nat,
                ),
            final(state).feeds.len() == old(state).feeds.len(),
            old(state)@.wf() ==> final(state)@.wf(),
    {
        let seen_at = now();
        self.apply_at(state, seen_at, max_history)
    }
}

/// Taking the result of a fetch that runs keeps the batch in order.
pub proof fn lemma_completed_wf(
    b: BatchView,
    ticket: int,
    outcome: Result<FetchedFeedView, Seq<char>>,
)
    requires
        b.wf(),
        b.in_flight.contains(ticket),
    ensures
        b.with_completed(ticket, outcome).wf(),
        b.with_completed(ticket, outcome).in_flight.len() + 1 == b.in_flight.len(),
        b.with_completed(ticket, outcome).started() == b.started(),
{
    let c = b.with_completed(ticket, outcome);
    let keep = other_than(ticket);
    let pos = lemma_filter_positions(b.in_flight, keep);
    let p = choose|p: int| 0 <= p < b.in_flight.len() && b.in_flight[p] == ticket;
    lemma_filter_remove(b.in_flight, p, keep);
    assert(b.in_flight.remove(p).filter(keep) == b.in_flight.remove(p)) by {
        lemma_filter_all(b.in_flight.remove(p), keep);
    }
    assert forall|i: int| 0 <= i < c.in_flight.len() implies 0 <= #[trigger] c.in_flight[i]
        < c.started() && c.in_flight[i] != ticket by {
        assert(b.in_flight[pos[i]] == c.in_flight[i]);
        b.in_flight.lemma_filter_pred(keep, i);
    }
    assert forall|i: int, j: int| 0 <= i < j < c.in_flight.len() implies c.in_flight[i]
        != c.in_flight[j] by {
        assert(pos[i] < pos[j]);
    }
    assert forall|i: int| 0 <= i < c.results.len() implies 0 <= (#[trigger] c.results[i]).0
        < c.started() by {
        if i < b.results.len() {
            assert(c.results[i] == b.results[i]);
        }
    }
    assert forall|i: int, j: int| 0 <= i < j < c.results.len() implies c.results[i].0
        != c.results[j].0 by {
        if j == b.results.len() {
            assert(c.results[i] == b.results[i]);
            assert(b.in_flight[p] != b.results[i].0);
        }
    }
    assert forall|i: int, j: int|
        0 <= i < c.in_flight.len() && 0 <= j < c.results.len() implies c.in_flight[i]
        != c.results[j].0 by {
        assert(b.in_flight[pos[i]] == c.in_flight[i]);
        if j < b.results.len() {
            assert(c.results[j] == b.results[j]);
        }
    }
}

/// Handing out the next job keeps the batch in order.
pub proof fn lemma_started_wf(b: BatchView)
    requires
        b.wf(),
        b.can_start(),
    ensures
        b.with_next_started().wf(),
        b.with_next_started().in_flight.len() == b.in_flight.len() + 1,
{
    let c = b.with_next_started();
    assert forall|i: int| 0 <= i < c.in_flight.len() implies 0 <= #[trigger] c.in_flight[i]
        < c.started() by {
        if i < b.in_flight.len() {
            assert(c.in_flight[i] == b.in_flight[i]);
        }
    }
    assert forall|i: int, j: int| 0 <= i < j < c.in_flight.len() implies c.in_flight[i]
        != c.in_flight[j] by {
        assert(c.in_flight[i] == b.in_flight[i]);
        if j < b.in_flight.len() {
            assert(c.in_flight[j] == b.in_flight[j]);
        }
    }
    assert forall|i: int, j: int|
        0 <= i < c.in_flight.len() && 0 <= j < c.results.len() implies c.in_flight[i]
        != c.results[j].0 by {
        if i < b.in_flight.len() {
            assert(c.in_flight[i] == b.in_flight[i]);
        }
    }
}

/// A batch as it is planned is in order, whatever the candidates.
pub proof fn lemma_planned_wf(
    s: StateView,
    indices: Seq<usize>,
    now: Timestamp,
    refresh_age_mins: u64,
    ceiling: usize,
)
    ensures
        planned(s, indices, now, refresh_age_mins, ceiling).wf(),
{
    let b = planned(s, indices, now, refresh_age_mins, ceiling);
    let due = indices.filter(is_due(s, now, refresh_age_mins));
    assert forall|i: int| 0 <= i < b.jobs.len() implies 0 <= (#[trigger] b.jobs[i]).index
        < b.feed_count by {
        indices.lemma_filter_pred(is_due(s, now, refresh_age_mins), i);
        assert(b.jobs[i] == job_for(s)(due[i]));
    }
}

/// What happens to a batch: the caller asks for the next job, or hands back
/// the result of a fetch.
pub enum BatchEvent {
    Start,
    Complete { ticket: int, outcome: Result<FetchedFeedView, Seq<char>> },
}

impl BatchView {
    /// The batch after one event. Asking for a job where none can start,
    /// and handing back a result under a ticket that is not running,
    /// change nothing.
    pub open spec fn after_event(self, e: BatchEvent) -> BatchView {
        match e {
            BatchEvent::Start => if self.can_start() {
                self.with_next_started()
            } else {
                self
            },
            BatchEvent::Complete { ticket, outcome } => if self.in_flight.contains(ticket) {
                self.with_completed(ticket, outcome)
            } else {
                self
            },
        }
    }

    /// The batch after the events `es`, one after the other.
    pub open spec fn after_events(self, es: Seq<BatchEvent>) -> BatchView
        decreases es.len(),
    {
        if es.len() == 0 {
            self
        } else {
            self.after_events(es.drop_last()).after_event(es.last())
        }
    }
}

/// The ceiling holds at every moment: however many feeds are due, and in
/// whatever order jobs are asked for and results come back, no more
/// fetches run than the ceiling allows.
pub proof fn lemma_ceiling_holds(
    s: StateView,
    indices: Seq<usize>,
    now: Timestamp,
    refresh_age_mins: u64,
    ceiling: usize,
    es: Seq<BatchEvent>,
)
    ensures
        planned(s, indices, now, refresh_age_mins, ceiling).after_events(es).wf(),
        planned(s, indices, now, refresh_age_mins, ceiling).after_events(es).in_flight.len()
            <= ceiling,
        planned(s, indices, now, refresh_age_mins, ceiling).after_events(es).ceiling == ceiling,
    decreases es.len(),
{
    let start = planned(s, indices, now, refresh_age_mins, ceiling);
    if es.len() == 0 {
        lemma_planned_wf(s, indices, now, refresh_age_mins, ceiling);
    } else {
        lemma_ceiling_holds(s, indices, now, refresh_age_mins, ceiling, es.drop_last());
        let before = start.after_events(es.drop_last());
        match es.last() {
            BatchEvent::Start => {
                if before.can_start() {
                    lemma_started_wf(before);
                }
            },
            BatchEvent::Complete { ticket, outcome } => {
                if before.in_flight.contains(ticket) {
                    lemma_completed_wf(before, ticket, outcome);
                }
            },
        }
    }
}

/// No result of `results` is for the feed at position `p`.
pub open spec fn passed_over(
    jobs: Seq<JobView>,
    results: Seq<(int, Result<FetchedFeedView, Seq<char>>)>,
    p: int,
) -> bool {
    forall|k: int| 0 <= k < results.len() ==> jobs[(#[trigger] results[k]).0].index != p
}

/// A refresh touches only the feeds that it fetched: a feed for which no
/// result came, because it was fresh or was no candidate, is as it was,
/// and so are its items, whatever the other fetches brought and in
/// whatever order they ended.
pub proof fn lemma_applied_leaves_others(
    s: StateView,
    jobs: Seq<JobView>,
    results: Seq<(int, Result<FetchedFeedView, Seq<char>>)>,
    now: Timestamp,
    seen_at: Timestamp,
    max: nat,
    p: int,
)
    requires
        s.ids_unique(),
        0 <= p < s.feeds.len(),
        forall|k: int| 0 <= k < results.len() ==> 0 <= (#[trigger] results[k]).0 < jobs.len(),
        forall|i: int| 0 <= i < jobs.len() ==> 0 <= (#[trigger] jobs[i]).index < s.feeds.len(),
        passed_over(jobs, results, p),
    ensures
        applied(s, jobs, results, now, seen_at, max).feeds.len() == s.feeds.len(),
        forall|i: int|
            0 <= i < s.feeds.len() ==> (#[trigger] applied(
                s,
                jobs,
                results,
                now,
                seen_at,
                max,
            ).feeds[i]).id == s.feeds[i].id,
        applied(s, jobs, results, now, seen_at, max).feeds[p] == s.feeds[p],
        applied(s, jobs, results, now, seen_at, max).items.filter(of_feed(s.feeds[p].id))
            == s.items.filter(of_feed(s.feeds[p].id)),
    decreases results.len(),
{
    if results.len() > 0 {
        let head = results.drop_last();
        assert forall|k: int| 0 <= k < head.len() implies 0 <= (#[trigger] head[k]).0
            < jobs.len() && jobs[head[k].0].index != p by {
            assert(head[k] == results[k]);
        }
        lemma_applied_leaves_others(s, jobs, head, now, seen_at, max, p);
        let before = applied(s, jobs, head, now, seen_at, max);
        let last = results[results.len() - 1];
        let idx = jobs[last.0].index;
        assert(idx != p);
        lemma_fetch_leaves_others(before, idx, last.1, now, seen_at, max);
        assert(before.feeds[idx].id == s.feeds[idx].id);
        assert(s.feeds[p].id != s.feeds[idx].id);
    }
}

/// Every result is for a job of the batch, and every job names a feed of
/// the store.
pub open spec fn results_fit(
    s: StateView,
    jobs: Seq<JobView>,
    results: Seq<(int, Result<FetchedFeedView, Seq<char>>)>,
) -> bool {
    &&& forall|k: int| 0 <= k < results.len() ==> 0 <= (#[trigger] results[k]).0 < jobs.len()
    &&& forall|i: int| 0 <= i < jobs.len() ==> 0 <= (#[trigger] jobs[i]).index < s.feeds.len()
}

/// The position of the feed that the result at `k` is for.
pub open spec fn feed_of(
    jobs: Seq<JobView>,
    results: Seq<(int, Result<FetchedFeedView, Seq<char>>)>,
    k: int,
) -> int {
    jobs[results[k].0].index
}

/// The result at `k` is the last one for its feed.
pub open spec fn last_for_its_feed(
    jobs: Seq<JobView>,
    results: Seq<(int, Result<FetchedFeedView, Seq<char>>)>,
    k: int,
) -> bool {
    &&& 0 <= k < results.len()
    &&& forall|j: int|
        k < j < results.len() ==> jobs[(#[trigger] results[j]).0].index != feed_of(jobs, results, k)
}

/// A refresh gives no feed another place, id, URL or alias: the store has
/// the same feeds afterwards, each where it was.
pub proof fn lemma_applied_keeps_feeds(
    s: StateView,
    jobs: Seq<JobView>,
    results: Seq<(int, Result<FetchedFeedView, Seq<char>>)>,
    now: Timestamp,
    seen_at: Timestamp,
    max: nat,
)
    requires
        results_fit(s, jobs, results),
    ensures
        applied(s, jobs, results, now, seen_at, max).feeds.len() == s.feeds.len(),
        forall|i: int|
            0 <= i < s.feeds.len() ==> {
                let after = #[trigger] applied(s, jobs, results, now, seen_at, max).feeds[i];
                &&& after.id == s.feeds[i].id
                &&& after.url == s.feeds[i].url
                &&& after.alias == s.feeds[i].alias
                &&& after.added_at == s.feeds[i].added_at
            },
        s.ids_unique() ==> applied(s, jobs, results, now, seen_at, max).ids_unique(),
    decreases results.len(),
{
    if results.len() > 0 {
        let head = results.drop_last();
        assert forall|k: int| 0 <= k < head.len() implies 0 <= (#[trigger] head[k]).0
            < jobs.len() by {
            assert(head[k] == results[k]);
        }
        lemma_applied_keeps_feeds(s, jobs, head, now, seen_at, max);
    }
}

/// What a refresh leaves of a feed is what the last result for that feed
/// made of it: the results that came back later were for other feeds, and
/// changed neither the feed nor its items.
pub proof fn lemma_applied_last_result(
    s: StateView,
    jobs: Seq<JobView>,
    results: Seq<(int, Result<FetchedFeedView, Seq<char>>)>,
    now: Timestamp,
    seen_at: Timestamp,
    max: nat,
    k: int,
)
    requires
        s.ids_unique(),
        results_fit(s, jobs, results),
        last_for_its_feed(jobs, results, k),
    ensures
        ({
            let p = feed_of(jobs, results, k);
            let then = applied(s, jobs, results.take(k), now, seen_at, max).after_fetch(
                p,
                results[k].1,
                now,
                seen_at,
                max,
            );
            let after = applied(s, jobs, results, now, seen_at, max);
            &&& 0 <= p < s.feeds.len()
            &&& applied(s, jobs, results.take(k), now, seen_at, max).feeds.len() == s.feeds.len()
            &&& applied(s, jobs, results.take(k), now, seen_at, max).feeds[p].id == s.feeds[p].id
            &&& after.feeds[p] == then.feeds[p]
            &&& after.items.filter(of_feed(s.feeds[p].id)) == then.items.filter(
                of_feed(s.feeds[p].id),
            )
        }),
    decreases results.len(),
{
    let p = feed_of(jobs, results, k);
    let head = results.drop_last();
    assert forall|j: int| 0 <= j < head.len() implies 0 <= (#[trigger] head[j]).0
        < jobs.len() by {
        assert(head[j] == results[j]);
    }
    if k == results.len() - 1 {
        assert(results.take(k) == head);
        lemma_applied_keeps_feeds(s, jobs, head, now, seen_at, max);
    } else {
        assert(head[k] == results[k]);
        assert(head.take(k) == results.take(k));
        assert forall|j: int| k < j < head.len() implies jobs[(#[trigger] head[j]).0].index
            != feed_of(jobs, head, k) by {
            assert(head[j] == results[j]);
        }
        lemma_applied_last_result(s, jobs, head, now, seen_at, max, k);
        lemma_applied_keeps_feeds(s, jobs, head, now, seen_at, max);
        let before = applied(s, jobs, head, now, seen_at, max);
        let last = results[results.len() - 1];
        let idx = jobs[last.0].index;
        assert(idx != p);
        lemma_fetch_leaves_others(before, idx, last.1, now, seen_at, max);
        assert(before.feeds[idx].id == s.feeds[idx].id);
        assert(s.feeds[p].id != s.feeds[idx].id);
    }
}

/// A failed fetch in a batch is kept apart from the cache. Where every
/// result for a feed is a failure, the refresh leaves the feed's title, the
/// time of its last fetch and its items as they were, whatever the other
/// fetches brought and in whatever order they ended; it sets nothing but
/// the feed's last error, to the error of the last result for that feed.
pub proof fn lemma_applied_failure_keeps_cache(
    s: StateView,
    jobs: Seq<JobView>,
    results: Seq<(int, Result<FetchedFeedView, Seq<char>>)>,
    now: Timestamp,
    seen_at: Timestamp,
    max: nat,
    k: int,
)
    requires
        s.ids_unique(),
        results_fit(s, jobs, results),
        last_for_its_feed(jobs, results, k),
        forall|j: int|
            0 <= j < results.len() && jobs[(#[trigger] results[j]).0].index == feed_of(
                jobs,
                results,
                k,
            ) ==> results[j].1 is Err,
    ensures
        ({
            let p = feed_of(jobs, results, k);
            let after = applied(s, jobs, results, now, seen_at, max);
            &&& after.feeds[p] == (FeedView { last_error: Some(results[k].1->Err_0), ..s.feeds[p] })
            &&& after.feeds[p].title == s.feeds[p].title
            &&& after.feeds[p].last_fetched_at == s.feeds[p].last_fetched_at
            &&& after.items.filter(of_feed(s.feeds[p].id)) == s.items.filter(of_feed(s.feeds[p].id))
        }),
{
    let p = feed_of(jobs, results, k);
    lemma_applied_last_result(s, jobs, results, now, seen_at, max, k);
    lemma_failures_change_no_cache(s, jobs, results, now, seen_at, max, p, k);
}

/// Where every one of the first `n` results that is for the feed at `p` is
/// a failure, those results leave the feed as it was but for its last
/// error, and its items as they were.
proof fn lemma_failures_change_no_cache(
    s: StateView,
    jobs: Seq<JobView>,
    results: Seq<(int, Result<FetchedFeedView, Seq<char>>)>,
    now: Timestamp,
    seen_at: Timestamp,
    max: nat,
    p: int,
    n: int,
)
    requires
        s.ids_unique(),
        results_fit(s, jobs, results),
        0 <= p < s.feeds.len(),
        0 <= n <= results.len(),
        forall|j: int|
            0 <= j < n && jobs[(#[trigger] results[j]).0].index == p ==> results[j].1 is Err,
    ensures
        ({
            let after = applied(s, jobs, results.take(n), now, seen_at, max);
            &&& after.feeds.len() == s.feeds.len()
            &&& after.feeds[p] == (FeedView { last_error: after.feeds[p].last_error, ..s.feeds[p] })
            &&& after.items.filter(of_feed(s.feeds[p].id)) == s.items.filter(of_feed(s.feeds[p].id))
        }),
    decreases n,
{
    let done = results.take(n);
    assert forall|j: int| 0 <= j < done.len() implies 0 <= (#[trigger] done[j]).0
        < jobs.len() by {
        assert(done[j] == results[j]);
    }
    if n > 0 {
        lemma_failures_change_no_cache(s, jobs, results, now, seen_at, max, p, n - 1);
        assert(done.drop_last() == results.take(n - 1));
        assert(done.last() == results[n - 1]);
        let before = applied(s, jobs, results.take(n - 1), now, seen_at, max);
        let idx = jobs[results[n - 1].0].index;
        assert forall|j: int| 0 <= j < n - 1 implies 0 <= (#[trigger] results.take(n - 1)[j]).0
            < jobs.len() by {
            assert(results.take(n - 1)[j] == results[j]);
        }
        lemma_applied_keeps_feeds(s, jobs, results.take(n - 1), now, seen_at, max);
        lemma_fetch_leaves_others(before, idx, results[n - 1].1, now, seen_at, max);
        if idx != p {
            assert(before.feeds[idx].id == s.feeds[idx].id);
            assert(s.feeds[p].id != s.feeds[idx].id);
        }
    }
}

/// A successful fetch in a batch replaces the feed's items in full. Where
/// the last result for a feed is a success, the feed holds after the
/// refresh what that fetch brought, cut down to the `max` newest, and
/// nothing else: no item that it had before has survived, whether or not
/// the fetch brought an equal one. It then holds all the fetched articles
/// where they are no more than `max`, else exactly `max` of them. The feed
/// is marked as fetched at the time of the batch, without an error, and
/// goes under the fetched title where the fetch brought one.
pub proof fn lemma_applied_success_replaces(
    s: StateView,
    jobs: Seq<JobView>,
    results: Seq<(int, Result<FetchedFeedView, Seq<char>>)>,
    now: Timestamp,
    seen_at: Timestamp,
    max: nat,
    k: int,
)
    requires
        s.ids_unique(),
        results_fit(s, jobs, results),
        last_for_its_feed(jobs, results, k),
        results[k].1 is Ok,
    ensures
        ({
            let p = feed_of(jobs, results, k);
            let id = s.feeds[p].id;
            let fetched = results[k].1->Ok_0;
            let after = applied(s, jobs, results, now, seen_at, max);
            &&& after.items.filter(of_feed(id)) == trimmed_history(
                stamped_all(fetched.entries, id, seen_at),
                id,
                max,
            )
            &&& count_of(after.items, id) <= max
            &&& count_of(after.items, id) == if fetched.entries.len() <= max {
                fetched.entries.len()
            } else {
                max
            }
            &&& after.feeds[p].last_fetched_at == Some(now)
            &&& after.feeds[p].last_error is None
            &&& fetched.title is Some ==> after.feeds[p].title == fetched.title
        }),
{
    let p = feed_of(jobs, results, k);
    lemma_applied_last_result(s, jobs, results, now, seen_at, max, k);
    let before = applied(s, jobs, results.take(k), now, seen_at, max);
    lemma_success_replaces(before, p, results[k].1->Ok_0, now, seen_at, max);
}

/// Once a fetch of a feed has succeeded in a batch, the feed holds at most
/// `max` items when the refresh is over, whatever came back after that
/// fetch, for this feed or for another.
pub proof fn lemma_applied_retention_bound(
    s: StateView,
    jobs: Seq<JobView>,
    results: Seq<(int, Result<FetchedFeedView, Seq<char>>)>,
    now: Timestamp,
    seen_at: Timestamp,
    max: nat,
    k: int,
)
    requires
        s.ids_unique(),
        results_fit(s, jobs, results),
        0 <= k < results.len(),
        results[k].1 is Ok,
    ensures
        count_of(
            applied(s, jobs, results, now, seen_at, max).items,
            s.feeds[feed_of(jobs, results, k)].id,
        ) <= max,
    decreases results.len(),
{
    let p = feed_of(jobs, results, k);
    let id = s.feeds[p].id;
    let head = results.drop_last();
    let before = applied(s, jobs, head, now, seen_at, max);
    let last = results[results.len() - 1];
    let idx = jobs[last.0].index;
    assert(results_fit(s, jobs, head)) by {
        assert forall|j: int| 0 <= j < head.len() implies 0 <= (#[trigger] head[j]).0
            < jobs.len() by {
            assert(head[j] == results[j]);
        }
    }
    assert(before.feeds.len() == s.feeds.len() && before.feeds[p].id == id && before.feeds[idx].id
        == s.feeds[idx].id) by {
        lemma_applied_keeps_feeds(s, jobs, head, now, seen_at, max);
    }
    if k < results.len() - 1 {
        assert(head[k] == results[k]);
        lemma_applied_retention_bound(s, jobs, head, now, seen_at, max, k);
    }
    if idx == p {
        if last.1 is Ok {
            assert(count_of(before.after_success(p, last.1->Ok_0, now, seen_at, max).items, id)
                <= max) by {
                lemma_success_replaces(before, p, last.1->Ok_0, now, seen_at, max);
            }
        }
    } else {
        assert(before.after_fetch(idx, last.1, now, seen_at, max).items.filter(of_feed(id))
            == before.items.filter(of_feed(id))) by {
            lemma_fetch_leaves_others(before, idx, last.1, now, seen_at, max);
        }
    }
}

} // verus!
