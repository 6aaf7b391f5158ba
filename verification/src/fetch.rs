//! Collecting the run history: which requests are made, in which order,
//! and what is kept of the answers.
//!
//! The hosting service lists runs page by page, newest first, and answers
//! one timing lookup per run. [`RunFetcher`] holds what has been collected
//! and decides, from each answer, the next request. Whoever drives it
//! performs the requests and hands back the answers as [`FetchEvent`]s,
//! the first page of the listing first.

use vstd::prelude::*;
use crate::workflows::{WorkflowRun, WorkflowRunTiming};

verus! {

/// How far the collection has come.
#[derive(Debug, Clone, Copy, PartialEq, Eq, Structural)]
pub enum FetchPhase {
    /// Pages of the run listing are being read.
    Listing,
    /// The runs are known; their timings are being looked up one by one.
    Timing,
    /// Every run has its timing.
    Done,
    /// A request failed or an answer came out of turn; nothing is kept.
    Failed,
}

/// The answer to a request.
#[derive(Debug)]
pub enum FetchEvent {
    /// The runs of the next page of the listing.
    Page(Vec<WorkflowRun>),
    /// The listing has no further page.
    EndOfPages,
    /// The timing of the run that was asked for.
    Timing(WorkflowRunTiming),
    /// The request failed.
    Failure,
}

/// An answer as a mathematical value.
pub enum FetchEventView {
    Page(Seq<WorkflowRun>),
    EndOfPages,
    Timing(WorkflowRunTiming),
    Failure,
}

impl View for FetchEvent {
    type V = FetchEventView;

    open spec fn view(&self) -> FetchEventView {
        match self {
            FetchEvent::Page(items) => FetchEventView::Page(items@),
            FetchEvent::EndOfPages => FetchEventView::EndOfPages,
            FetchEvent::Timing(timing) => FetchEventView::Timing(*timing),
            FetchEvent::Failure => FetchEventView::Failure,
        }
    }
}

/// What is to be done next.
#[derive(Debug, Clone, Copy, PartialEq, Eq, Structural)]
pub enum FetchAction {
    /// Request the next page of the listing.
    RequestPage,
    /// Request the timing of the run with this identifier.
    RequestTiming(u64),
    /// Nothing is left to request: the results are complete.
    Finish,
    /// Give up: there are no results.
    Abort,
}

/// Why a collection has no results.
#[derive(Debug, Clone, Copy, PartialEq, Eq, Structural)]
pub enum RemoteApiError {
    /// A request failed, or an answer did not fit the request.
    Failed,
    /// The collection was ended before every run had its timing.
    Unfinished,
}

/// The state of a collection as a mathematical value.
pub struct FetchState {
    /// The earliest day of which runs are kept, where one is given.
    pub since: Option<i64>,
    pub phase: FetchPhase,
    /// While listing, every run read so far; afterwards, the runs that are kept.
    pub runs: Seq<WorkflowRun>,
    /// The timings of the first runs, in the order of the runs.
    pub timings: Seq<WorkflowRunTiming>,
}

/// Whether a run is kept: it was created on the day `since` or later, or no day is given.
pub open spec fn is_retained(run: WorkflowRun, since: Option<i64>) -> bool {
    match since {
        Some(day) => run.day() >= day,
        None => true,
    }
}

/// The runs that are kept, in their order.
pub open spec fn retained(runs: Seq<WorkflowRun>, since: Option<i64>) -> Seq<WorkflowRun>
    decreases runs.len(),
{
    if runs.len() == 0 {
        Seq::empty()
    } else if is_retained(runs.last(), since) {
        retained(runs.drop_last(), since).push(runs.last())
    } else {
        retained(runs.drop_last(), since)
    }
}

/// Whether the listing need not be read further: a day is given and the
/// last run read so far was created before it. The service lists newer runs
/// first, so every later page would hold only runs that are dropped.
pub open spec fn stops_scan(runs: Seq<WorkflowRun>, since: Option<i64>) -> bool {
    match since {
        Some(day) => runs.len() > 0 && runs.last().day() < day,
        None => false,
    }
}

/// The state in which a collection begins, before the first page.
pub open spec fn initial_state(since: Option<i64>) -> FetchState {
    FetchState { since, phase: FetchPhase::Listing, runs: Seq::empty(), timings: Seq::empty() }
}

/// The state and action after the listing has ended with the runs `listed`:
/// the runs created before `since` are dropped, and the timing of the first
/// run that is kept is requested.
pub open spec fn timing_begins(since: Option<i64>, listed: Seq<WorkflowRun>) -> (
    FetchState,
    FetchAction,
) {
    let kept = retained(listed, since);
    if kept.len() == 0 {
        (
            FetchState { since, phase: FetchPhase::Done, runs: kept, timings: Seq::empty() },
            FetchAction::Finish,
        )
    } else {
        (
            FetchState { since, phase: FetchPhase::Timing, runs: kept, timings: Seq::empty() },
            FetchAction::RequestTiming(kept[0].id),
        )
    }
}

/// The state and action after a failure: nothing is kept.
pub open spec fn given_up(since: Option<i64>) -> (FetchState, FetchAction) {
    (
        FetchState { since, phase: FetchPhase::Failed, runs: Seq::empty(), timings: Seq::empty() },
        FetchAction::Abort,
    )
}

/// The state that follows `state` on `event`, and the action to take.
///
/// While listing, a page is appended to the runs read so far; the listing
/// ends when the scan stops or the pages run out. Then each timing that
/// arrives belongs to the first run that has none yet, and the timing of
/// the next run is requested until every run has one. A failure, or an
/// answer that was not asked for, ends the collection without results.
pub open spec fn next_step(state: FetchState, event: FetchEventView) -> (FetchState, FetchAction) {
    match (state.phase, event) {
        (FetchPhase::Listing, FetchEventView::Page(items)) => {
            let listed = state.runs + items;
            if stops_scan(listed, state.since) {
                timing_begins(state.since, listed)
            } else {
                (
                    FetchState {
                        since: state.since,
                        phase: FetchPhase::Listing,
                        runs: listed,
                        timings: state.timings,
                    },
                    FetchAction::RequestPage,
                )
            }
        },
        (FetchPhase::Listing, FetchEventView::EndOfPages) => timing_begins(
            state.since,
            state.runs,
        ),
        (FetchPhase::Timing, FetchEventView::Timing(timing)) => {
            let timings = state.timings.push(timing);
            if timings.len() == state.runs.len() {
                (
                    FetchState {
                        since: state.since,
                        phase: FetchPhase::Done,
                        runs: state.runs,
                        timings,
                    },
                    FetchAction::Finish,
                )
            } else {
                (
                    FetchState {
                        since: state.since,
                        phase: FetchPhase::Timing,
                        runs: state.runs,
                        timings,
                    },
                    FetchAction::RequestTiming(state.runs[timings.len() as int].id),
                )
            }
        },
        _ => given_up(state.since),
    }
}

/// Whether a state is one that a collection can reach: timings are never
/// ahead of the runs, every run has one when the collection is done, and
/// once the listing has ended no run is older than `since`.
pub open spec fn is_consistent(state: FetchState) -> bool {
    match state.phase {
        FetchPhase::Listing => state.timings.len() == 0,
        FetchPhase::Timing => state.timings.len() < state.runs.len() && forall|i: int|
            0 <= i < state.runs.len() ==> is_retained(#[trigger] state.runs[i], state.since),
        FetchPhase::Done => state.timings.len() == state.runs.len() && forall|i: int|
            0 <= i < state.runs.len() ==> is_retained(#[trigger] state.runs[i], state.since),
        FetchPhase::Failed => state.runs.len() == 0 && state.timings.len() == 0,
    }
}

/// None of the runs that are kept was created before `since`, and no run is
/// kept that was not there.
pub proof fn lemma_retained_are_since(runs: Seq<WorkflowRun>, since: Option<i64>)
    ensures
        retained(runs, since).len() <= runs.len(),
        forall|i: int|
            0 <= i < retained(runs, since).len() ==> is_retained(
                #[trigger] retained(runs, since)[i],
                since,
            ) && runs.contains(retained(runs, since)[i]),
    decreases runs.len(),
{
    if runs.len() > 0 {
        let shorter = runs.drop_last();
        lemma_retained_are_since(shorter, since);
        let kept = retained(runs, since);
        assert forall|i: int| 0 <= i < kept.len() implies is_retained(#[trigger] kept[i], since)
            && runs.contains(kept[i]) by {
            if i < retained(shorter, since).len() {
                let run = retained(shorter, since)[i];
                assert(shorter.contains(run));
                let k = choose|k: int| 0 <= k < shorter.len() && shorter[k] == run;
                assert(runs[k] == run);
            } else {
                assert(runs[runs.len() - 1] == kept[i]);
            }
        }
    }
}

/// Every run that was created on the day `since` or later is kept.
pub proof fn lemma_retained_keeps_all_since(runs: Seq<WorkflowRun>, since: Option<i64>, i: int)
    requires
        0 <= i < runs.len(),
        is_retained(runs[i], since),
    ensures
        retained(runs, since).contains(runs[i]),
    decreases runs.len(),
{
    let kept = retained(runs, since);
    if i == runs.len() - 1 {
        assert(kept[kept.len() - 1] == runs[i]);
    } else {
        let shorter = runs.drop_last();
        assert(shorter[i] == runs[i]);
        lemma_retained_keeps_all_since(shorter, since, i);
        let k = choose|k: int|
            0 <= k < retained(shorter, since).len() && retained(shorter, since)[k] == runs[i];
        assert(kept[k] == runs[i]);
    }
}

/// A step leads from one reachable state to another.
pub proof fn lemma_next_step_is_consistent(state: FetchState, event: FetchEventView)
    requires
        is_consistent(state),
    ensures
        is_consistent(next_step(state, event).0),
        next_step(state, event).0.since == state.since,
{
    match (state.phase, event) {
        (FetchPhase::Listing, FetchEventView::Page(items)) => {
            lemma_retained_are_since(state.runs + items, state.since);
        },
        (FetchPhase::Listing, FetchEventView::EndOfPages) => {
            lemma_retained_are_since(state.runs, state.since);
        },
        _ => {},
    }
}

/// All runs of the pages, in the order in which the service lists them.
pub open spec fn listed(pages: Seq<Seq<WorkflowRun>>) -> Seq<WorkflowRun>
    decreases pages.len(),
{
    if pages.len() == 0 {
        Seq::empty()
    } else {
        listed(pages.drop_last()) + pages.last()
    }
}

/// The state of a new collection, and the action to take, after the pages
/// have been handed to it one by one.
pub open spec fn after_pages(since: Option<i64>, pages: Seq<Seq<WorkflowRun>>) -> (
    FetchState,
    FetchAction,
)
    decreases pages.len(),
{
    if pages.len() == 0 {
        (initial_state(since), FetchAction::RequestPage)
    } else {
        next_step(
            after_pages(since, pages.drop_last()).0,
            FetchEventView::Page(pages.last()),
        )
    }
}

/// The state of a collection, and the action to take, after the timings
/// have been handed to it one by one, beginning in `state`.
pub open spec fn after_timings(state: FetchState, timings: Seq<WorkflowRunTiming>) -> (
    FetchState,
    FetchAction,
)
    decreases timings.len(),
{
    if timings.len() == 0 {
        (state, FetchAction::RequestTiming(state.runs[0].id))
    } else {
        next_step(
            after_timings(state, timings.drop_last()).0,
            FetchEventView::Timing(timings.last()),
        )
    }
}

/// The listing is read up to the first page at whose end the scan stops,
/// and no further. As long as no page has ended with a run older than
/// `since`, all runs read are held and the next page is requested; at the
/// first page that does, no page is requested any more, and the runs kept
/// are those of the pages read that are not older than `since`.
pub proof fn lemma_scan_reads_to_the_boundary(since: Option<i64>, pages: Seq<Seq<WorkflowRun>>)
    requires
        forall|k: int| 0 < k < pages.len() ==> !stops_scan(listed(#[trigger] pages.take(k)), since),
    ensures
        stops_scan(listed(pages), since) ==> after_pages(since, pages) == timing_begins(
            since,
            listed(pages),
        ) && after_pages(since, pages).1 != FetchAction::RequestPage,
        !stops_scan(listed(pages), since) ==> after_pages(since, pages) == (
            FetchState {
                since,
                phase: FetchPhase::Listing,
                runs: listed(pages),
                timings: Seq::empty(),
            },
            FetchAction::RequestPage,
        ),
    decreases pages.len(),
{
    if pages.len() > 0 {
        let shorter = pages.drop_last();
        assert(shorter =~= pages.take(pages.len() - 1));
        assert forall|k: int| 0 < k < shorter.len() implies !stops_scan(
            listed(#[trigger] shorter.take(k)),
            since,
        ) by {
            assert(shorter.take(k) =~= pages.take(k));
        }
        lemma_scan_reads_to_the_boundary(since, shorter);
    }
}

/// Without a day, and as long as every run read is as new as `since`, the scan does not stop:
/// every page of the listing is read.
pub proof fn lemma_scan_goes_on(runs: Seq<WorkflowRun>, since: Option<i64>)
    requires
        forall|i: int| 0 <= i < runs.len() ==> is_retained(#[trigger] runs[i], since),
    ensures
        !stops_scan(runs, since),
        retained(runs, since) == runs,
    decreases runs.len(),
{
    if runs.len() > 0 {
        assert(is_retained(runs[runs.len() - 1], since));
        let shorter = runs.drop_last();
        assert forall|i: int| 0 <= i < shorter.len() implies is_retained(
            #[trigger] shorter[i],
            since,
        ) by {
            assert(shorter[i] == runs[i]);
        }
        lemma_scan_goes_on(shorter, since);
        assert(shorter.push(runs.last()) =~= runs);
    } else {
        assert(runs =~= Seq::empty());
    }
}

/// Timings are paired with runs by position: the timing that arrives is
/// that of the first run without one, the next request names the run
/// behind it, and the collection is done exactly when every run has its timing.
pub proof fn lemma_timings_pair_by_position(state: FetchState, timings: Seq<WorkflowRunTiming>)
    requires
        state.phase == FetchPhase::Timing,
        state.timings.len() == 0,
        0 < state.runs.len(),
        timings.len() <= state.runs.len(),
    ensures
        after_timings(state, timings) == (
            FetchState {
                since: state.since,
                phase: if timings.len() == state.runs.len() {
                    FetchPhase::Done
                } else {
                    FetchPhase::Timing
                },
                runs: state.runs,
                timings,
            },
            if timings.len() == state.runs.len() {
                FetchAction::Finish
            } else {
                FetchAction::RequestTiming(state.runs[timings.len() as int].id)
            },
        ),
    decreases timings.len(),
{
    if timings.len() > 0 {
        lemma_timings_pair_by_position(state, timings.drop_last());
        assert(timings.drop_last().push(timings.last()) =~= timings);
    } else {
        assert(state.timings =~= timings);
    }
}

/// Drops the runs that were created before the day `since`.
pub fn retain_since(runs: Vec<WorkflowRun>, since: Option<i64>) -> (kept: Vec<WorkflowRun>)
    ensures
        kept@ == retained(runs@, since),
{
    let mut kept: Vec<WorkflowRun> = Vec::new();
    let ghost all = runs@;
    for run in iter: runs
        invariant
            iter.seq() == all,
            kept@ == retained(all.take(iter.index() as int), since),
    {
        let keep = match since {
            Some(day) => run.utc_day() >= day,
            None => true,
        };
        proof {
            let k = iter.index() as int;
            assert(all.take(k + 1).drop_last() =~= all.take(k));
        }
        if keep {
            kept.push(run);
        }
    }
    proof {
        assert(all.take(all.len() as int) =~= all);
    }
    kept
}

/// Tells whether the listing need not be read further.
pub fn scan_stops(runs: &Vec<WorkflowRun>, since: Option<i64>) -> (stops: bool)
    ensures
        stops == stops_scan(runs@, since),
{
    match since {
        Some(day) => runs.len() > 0 && runs[runs.len() - 1].utc_day() < day,
        None => false,
    }
}

/// The collection of the runs of a workflow and of their timings.
pub struct RunFetcher {
    since: Option<i64>,
    phase: FetchPhase,
    runs: Vec<WorkflowRun>,
    timings: Vec<WorkflowRunTiming>,
}

impl View for RunFetcher {
    type V = FetchState;

    closed spec fn view(&self) -> FetchState {
        FetchState {
            since: self.since,
            phase: self.phase,
            runs: self.runs@,
            timings: self.timings@,
        }
    }
}

impl RunFetcher {
    /// The state of the collection is one that a collection can reach.
    pub open spec fn wf(&self) -> bool {
        is_consistent(self@)
    }

    /// Begins a collection that keeps the runs created on the day `since`
    /// or later, or every run where no day is given. The first page of the
    /// listing is to be requested.
    pub fn new(since: Option<i64>) -> (fetcher: Self)
        ensures
            fetcher.wf(),
            fetcher@ == initial_state(since),
    {
        RunFetcher { since, phase: FetchPhase::Listing, runs: Vec::new(), timings: Vec::new() }
    }

    /// Returns how far the collection has come.
    pub fn phase(&self) -> (phase: FetchPhase)
        ensures
            phase == self@.phase,
    {
        self.phase
    }

    /// Ends the listing and turns to the timings.
    fn begin_timing(&mut self) -> (action: FetchAction)
        requires
            old(self).phase == FetchPhase::Listing,
            old(self).timings@.len() == 0,
        ensures
            (final(self)@, action) == timing_begins(old(self).since, old(self).runs@),
    {
        let mut listed: Vec<WorkflowRun> = Vec::new();
        std::mem::swap(&mut listed, &mut self.runs);
        self.runs = retain_since(listed, self.since);
        assert(self.timings@ =~= Seq::empty());
        if self.runs.len() == 0 {
            self.phase = FetchPhase::Done;
            FetchAction::Finish
        } else {
            self.phase = FetchPhase::Timing;
            FetchAction::RequestTiming(self.runs[0].id)
        }
    }

    /// Ends the collection without results.
    fn give_up(&mut self) -> (action: FetchAction)
        ensures
            (final(self)@, action) == given_up(old(self).since),
    {
        self.phase = FetchPhase::Failed;
        self.runs = Vec::new();
        self.timings = Vec::new();
        FetchAction::Abort
    }

    /// Takes the answer to the last request and returns the next action.
    pub fn step(&mut self, event: FetchEvent) -> (action: FetchAction)
        requires
            old(self).wf(),
        ensures
            final(self).wf(),
            (final(self)@, action) == next_step(old(self)@, event@),
    {
        proof {
            lemma_next_step_is_consistent(self@, event@);
        }
        match (self.phase, event) {
            (FetchPhase::Listing, FetchEvent::Page(items)) => {
                let mut items = items;
                self.runs.append(&mut items);
                if scan_stops(&self.runs, self.since) {
                    self.begin_timing()
                } else {
                    FetchAction::RequestPage
                }
            },
            (FetchPhase::Listing, FetchEvent::EndOfPages) => self.begin_timing(),
            (FetchPhase::Timing, FetchEvent::Timing(timing)) => {
                self.timings.push(timing);
                if self.timings.len() == self.runs.len() {
                    self.phase = FetchPhase::Done;
                    FetchAction::Finish
                } else {
                    FetchAction::RequestTiming(self.runs[self.timings.len()].id)
                }
            },
            _ => self.give_up(),
        }
    }

    /// Ends the collection and returns the runs with their timings, paired
    /// by position, if every run has its timing.
    pub fn into_result(self) -> (result: Result<
        (Vec<WorkflowRun>, Vec<WorkflowRunTiming>),
        RemoteApiError,
    >)
        requires
            self.wf(),
        ensures
            match self@.phase {
                FetchPhase::Done => result matches Ok(pair) && pair.0@ == self@.runs && pair.1@
                    == self@.timings && pair.0@.len() == pair.1@.len(),
                FetchPhase::Failed => result matches Err(RemoteApiError::Failed),
                _ => result matches Err(RemoteApiError::Unfinished),
            },
    {
        match self.phase {
            FetchPhase::Done => Ok((self.runs, self.timings)),
            FetchPhase::Failed => Err(RemoteApiError::Failed),
            _ => Err(RemoteApiError::Unfinished),
        }
    }
}

} // verus!
