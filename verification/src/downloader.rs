//! The decision logic of the bounded downloader: which task may start
//! next, what to do with each response, and when the batch is over. The
//! driver performs the existence checks, fetches and writes, and hands
//! each result back as an event.

use crate::outcome::{classification, classify, is_fatal, DownloadOutcome, FailReason, FetchResult, Verdict};
use vstd::prelude::*;

verus! {

/// One unit of work: a remote artifact and the local path it goes to.
#[derive(Debug)]
pub struct DownloadTask {
    pub url: String,
    pub dest: String,
}

/// A task as contracts see it.
pub struct TaskView {
    pub url: Seq<char>,
    pub dest: Seq<char>,
}

impl View for DownloadTask {
    type V = TaskView;

    open spec fn view(&self) -> TaskView {
        TaskView { url: self.url@, dest: self.dest@ }
    }
}

/// Where a task stands.
#[derive(Clone, Copy, Debug, PartialEq, Eq, Structural)]
pub enum TaskState {
    /// Not yet admitted.
    Pending,
    /// Admitted; its request is outstanding.
    Fetching,
    /// Its body was received and is being written to the destination.
    Persisting,
    /// Over, with this outcome.
    Done(DownloadOutcome),
}

/// The reply to an admission.
#[derive(Clone, Copy, Debug, PartialEq, Eq, Structural)]
pub enum Admission {
    /// The task is not the one that may start now; nothing changed.
    Refused,
    /// The destination exists: the task is over without a request.
    Skipped,
    /// The task's URL is no absolute URL: the task is over as
    /// `Failed(InvalidUrl)` without a request.
    Invalid,
    /// The request is to be sent now.
    Fetch,
}

/// The reply to a completed fetch.
#[derive(Clone, Copy, Debug, PartialEq, Eq, Structural)]
pub enum Completion {
    /// The task has no request outstanding; nothing changed.
    Refused,
    /// Write the body to the task's destination, then report the write.
    Persist,
    /// The task is over with this outcome.
    Finished(DownloadOutcome),
}

/// Whether a task in this state holds one of the slots.
pub open spec fn holds_slot(s: TaskState) -> bool {
    s is Fetching || s is Persisting
}

/// The number of tasks that hold a slot.
pub open spec fn slots_held(states: Seq<TaskState>) -> nat
    decreases states.len(),
{
    if states.len() == 0 {
        0
    } else {
        slots_held(states.drop_last()) + if holds_slot(states.last()) {
            1nat
        } else {
            0nat
        }
    }
}

/// The number of tasks whose request is outstanding.
pub open spec fn requests_outstanding(states: Seq<TaskState>) -> nat
    decreases states.len(),
{
    if states.len() == 0 {
        0
    } else {
        requests_outstanding(states.drop_last()) + if states.last() is Fetching {
            1nat
        } else {
            0nat
        }
    }
}

/// The downloader as contracts see it.
pub struct DownloaderView {
    pub tasks: Seq<TaskView>,
    pub states: Seq<TaskState>,
    /// The number of tasks admitted so far; tasks are admitted in order.
    pub next: nat,
    /// The most tasks that may hold a slot at once.
    pub ceiling: nat,
    /// Whether a fatal outcome has stopped admission.
    pub halted: bool,
}

impl DownloaderView {
    /// Tasks are admitted in order, and the slots held never exceed the
    /// ceiling.
    pub open spec fn well_formed(self) -> bool {
        &&& self.tasks.len() == self.states.len()
        &&& self.next <= self.states.len()
        &&& forall|i: int| 0 <= i < self.next ==> !(#[trigger] self.states[i] is Pending)
        &&& forall|i: int| self.next <= i < self.states.len() ==> #[trigger] self.states[i] is Pending
        &&& slots_held(self.states) <= self.ceiling
    }

    /// The task that may start now: the first pending one, unless the
    /// batch is halted, every slot is held, or no task is pending.
    pub open spec fn admission(self) -> Option<int> {
        if !self.halted && slots_held(self.states) < self.ceiling && self.next < self.states.len() {
            Some(self.next as int)
        } else {
            None
        }
    }

    /// The reply to admitting task `index`, given whether its
    /// destination exists and whether its URL can be requested. The
    /// destination is looked at first.
    pub open spec fn start_reply(self, index: int, dest_exists: bool, url_ok: bool) -> Admission {
        if self.admission() != Some(index) {
            Admission::Refused
        } else if dest_exists {
            Admission::Skipped
        } else if !url_ok {
            Admission::Invalid
        } else {
            Admission::Fetch
        }
    }

    /// The state after admitting task `index`.
    pub open spec fn start_step(self, index: int, dest_exists: bool, url_ok: bool) -> DownloaderView {
        match self.start_reply(index, dest_exists, url_ok) {
            Admission::Refused => self,
            Admission::Invalid => DownloaderView {
                states: self.states.update(
                    index,
                    TaskState::Done(DownloadOutcome::Failed(FailReason::InvalidUrl)),
                ),
                next: self.next + 1,
                ..self
            },
            Admission::Skipped => DownloaderView {
                states: self.states.update(
                    index,
                    TaskState::Done(DownloadOutcome::SkippedAlreadyPresent),
                ),
                next: self.next + 1,
                ..self
            },
            Admission::Fetch => DownloaderView {
                states: self.states.update(index, TaskState::Fetching),
                next: self.next + 1,
                ..self
            },
        }
    }

    /// The reply to the fetch of task `index` coming back with `result`.
    pub open spec fn complete_reply(self, index: int, result: FetchResult) -> Completion {
        if 0 <= index < self.states.len() && self.states[index] is Fetching {
            match classification(result) {
                Verdict::Persist => Completion::Persist,
                Verdict::Done(o) => Completion::Finished(o),
            }
        } else {
            Completion::Refused
        }
    }

    /// The state after the fetch of task `index` came back with `result`.
    pub open spec fn complete_step(self, index: int, result: FetchResult) -> DownloaderView {
        match self.complete_reply(index, result) {
            Completion::Refused => self,
            Completion::Persist => DownloaderView {
                states: self.states.update(index, TaskState::Persisting),
                ..self
            },
            Completion::Finished(o) => DownloaderView {
                states: self.states.update(index, TaskState::Done(o)),
                halted: self.halted || is_fatal(o),
                ..self
            },
        }
    }

    /// The outcome of task `index` once its write succeeded or failed;
    /// `None` where the task is not being written.
    pub open spec fn persist_reply(self, index: int, written: bool) -> Option<DownloadOutcome> {
        if 0 <= index < self.states.len() && self.states[index] is Persisting {
            if written {
                Some(DownloadOutcome::Saved)
            } else {
                Some(DownloadOutcome::Failed(FailReason::Io))
            }
        } else {
            None
        }
    }

    /// The state after the write for task `index` succeeded or failed.
    pub open spec fn persist_step(self, index: int, written: bool) -> DownloaderView {
        match self.persist_reply(index, written) {
            None => self,
            Some(o) => DownloaderView { states: self.states.update(index, TaskState::Done(o)), ..self },
        }
    }

    /// The batch is over: no task holds a slot and none can be admitted
    /// any more.
    pub open spec fn finished(self) -> bool {
        slots_held(self.states) == 0 && (self.halted || self.next == self.states.len())
    }
}

/// Changing one task's state changes the slots held by that task's
/// share alone.
pub proof fn lemma_slots_update(states: Seq<TaskState>, i: int, s: TaskState)
    requires
        0 <= i < states.len(),
    ensures
        slots_held(states.update(i, s)) + (if holds_slot(states[i]) {
            1nat
        } else {
            0nat
        }) == slots_held(states) + (if holds_slot(s) {
            1nat
        } else {
            0nat
        }),
    decreases states.len(),
{
    if i == states.len() - 1 {
        assert(states.update(i, s).drop_last() =~= states.drop_last());
    } else {
        lemma_slots_update(states.drop_last(), i, s);
        assert(states.update(i, s).drop_last() =~= states.drop_last().update(i, s));
    }
}

/// Tasks that hold no slot add nothing to the count.
pub proof fn lemma_no_slots(states: Seq<TaskState>)
    requires
        forall|i: int| 0 <= i < states.len() ==> !holds_slot(#[trigger] states[i]),
    ensures
        slots_held(states) == 0,
    decreases states.len(),
{
    if states.len() > 0 {
        lemma_no_slots(states.drop_last());
    }
}

/// A task that holds a slot is counted.
pub proof fn lemma_slot_counted(states: Seq<TaskState>, i: int)
    requires
        0 <= i < states.len(),
        holds_slot(states[i]),
    ensures
        slots_held(states) >= 1,
    decreases states.len(),
{
    if i < states.len() - 1 {
        lemma_slot_counted(states.drop_last(), i);
    }
}

/// Outstanding requests are among the slots held, and the slots held are
/// among the tasks.
pub proof fn lemma_requests_within_slots(states: Seq<TaskState>)
    ensures
        requests_outstanding(states) <= slots_held(states) <= states.len(),
    decreases states.len(),
{
    if states.len() > 0 {
        lemma_requests_within_slots(states.drop_last());
    }
}

/// In every well-formed state the requests outstanding do not exceed the
/// ceiling.
pub proof fn lemma_bounded_concurrency(v: DownloaderView)
    requires
        v.well_formed(),
    ensures
        requests_outstanding(v.states) <= v.ceiling,
{
    lemma_requests_within_slots(v.states);
}

/// Every step leads from a well-formed state to a well-formed state, so
/// the bound on outstanding requests holds throughout a run.
pub proof fn lemma_steps_keep_bound(
    v: DownloaderView,
    index: int,
    dest_exists: bool,
    url_ok: bool,
    result: FetchResult,
    written: bool,
)
    requires
        v.well_formed(),
    ensures
        v.start_step(index, dest_exists, url_ok).well_formed(),
        v.complete_step(index, result).well_formed(),
        v.persist_step(index, written).well_formed(),
{
    if v.start_reply(index, dest_exists, url_ok) != Admission::Refused {
        let w = v.start_step(index, dest_exists, url_ok);
        lemma_slots_update(v.states, index, w.states[index]);
    }
    if v.complete_reply(index, result) != Completion::Refused {
        let w = v.complete_step(index, result);
        lemma_slots_update(v.states, index, w.states[index]);
    }
    if v.persist_reply(index, written).is_some() {
        let w = v.persist_step(index, written);
        lemma_slots_update(v.states, index, w.states[index]);
    }
}

/// Once the batch is halted no task is admitted, and it stays halted;
/// a task already admitted still gets its reply.
pub proof fn lemma_halt_stops_admission(
    v: DownloaderView,
    index: int,
    dest_exists: bool,
    url_ok: bool,
    result: FetchResult,
    written: bool,
)
    requires
        v.halted,
    ensures
        v.admission().is_none(),
        v.start_step(index, dest_exists, url_ok) == v,
        v.complete_step(index, result).halted,
        v.persist_step(index, written).halted,
        0 <= index < v.states.len() && v.states[index] is Fetching ==> v.complete_reply(
            index,
            result,
        ) != Completion::Refused,
        0 <= index < v.states.len() && v.states[index] is Persisting ==> v.persist_reply(
            index,
            written,
        ).is_some(),
{
}

/// A 404 response ends the task as `SkippedNotFound`: nothing is to be
/// written, the slot is freed, and the batch is halted no more than it
/// was.
pub proof fn lemma_not_found_ends_task(v: DownloaderView, index: int)
    requires
        v.well_formed(),
        0 <= index < v.states.len(),
        v.states[index] is Fetching,
    ensures
        v.complete_reply(index, FetchResult::Response(404)) == Completion::Finished(
            DownloadOutcome::SkippedNotFound,
        ),
        v.complete_step(index, FetchResult::Response(404)).states[index] == TaskState::Done(
            DownloadOutcome::SkippedNotFound,
        ),
        v.complete_step(index, FetchResult::Response(404)).halted == v.halted,
        slots_held(v.complete_step(index, FetchResult::Response(404)).states) + 1 == slots_held(
            v.states,
        ),
{
    let w = v.complete_step(index, FetchResult::Response(404));
    lemma_slots_update(v.states, index, w.states[index]);
}

/// A fatal classification halts the batch.
pub proof fn lemma_forbidden_halts(v: DownloaderView, index: int)
    requires
        0 <= index < v.states.len(),
        v.states[index] is Fetching,
    ensures
        v.complete_step(index, FetchResult::Response(403)).halted,
        v.complete_step(index, FetchResult::Response(403)).admission().is_none(),
{
}

/// Admitting a task whose destination exists issues no request: the
/// task is over at once, and what holds a slot is unchanged.
pub proof fn lemma_present_needs_no_request(v: DownloaderView, index: int, url_ok: bool)
    requires
        v.well_formed(),
        v.admission() == Some(index),
    ensures
        v.start_step(index, true, url_ok).states[index] == TaskState::Done(
            DownloadOutcome::SkippedAlreadyPresent,
        ),
        slots_held(v.start_step(index, true, url_ok).states) == slots_held(v.states),
        requests_outstanding(v.start_step(index, true, url_ok).states) == requests_outstanding(
            v.states,
        ),
{
    let w = v.start_step(index, true, url_ok);
    lemma_slots_update(v.states, index, w.states[index]);
    lemma_requests_update(v.states, index, w.states[index]);
}

/// The state of a batch before any task has started.
pub open spec fn fresh(tasks: Seq<TaskView>, ceiling: nat) -> DownloaderView {
    DownloaderView {
        tasks,
        states: Seq::new(tasks.len(), |i: int| TaskState::Pending),
        next: 0,
        ceiling,
        halted: false,
    }
}

/// A batch starts well formed, whatever its size and its ceiling.
pub proof fn lemma_fresh_well_formed(tasks: Seq<TaskView>, ceiling: nat)
    ensures
        fresh(tasks, ceiling).well_formed(),
        slots_held(fresh(tasks, ceiling).states) == 0,
{
    lemma_no_slots(fresh(tasks, ceiling).states);
}

/// The state after the next `n` tasks were started in turn, each
/// finding its destination present.
pub open spec fn resumed(v: DownloaderView, n: nat) -> DownloaderView
    decreases n,
{
    if n == 0 {
        v
    } else {
        let w = resumed(v, (n - 1) as nat);
        w.start_step(w.next as int, true, true)
    }
}

/// A run over tasks whose destinations are all present makes no
/// request: under any ceiling above zero each task in turn ends as
/// `SkippedAlreadyPresent`, no slot is ever held, and after the last
/// task the batch is over.
pub proof fn lemma_rerun_makes_no_request(tasks: Seq<TaskView>, ceiling: nat, n: nat)
    requires
        ceiling > 0,
        n <= tasks.len(),
    ensures
        resumed(fresh(tasks, ceiling), n).well_formed(),
        resumed(fresh(tasks, ceiling), n).tasks == tasks,
        resumed(fresh(tasks, ceiling), n).ceiling == ceiling,
        resumed(fresh(tasks, ceiling), n).next == n,
        !resumed(fresh(tasks, ceiling), n).halted,
        slots_held(resumed(fresh(tasks, ceiling), n).states) == 0,
        requests_outstanding(resumed(fresh(tasks, ceiling), n).states) == 0,
        forall|i: int|
            0 <= i < n ==> #[trigger] resumed(fresh(tasks, ceiling), n).states[i]
                == TaskState::Done(DownloadOutcome::SkippedAlreadyPresent),
        n == tasks.len() ==> resumed(fresh(tasks, ceiling), n).finished(),
    decreases n,
{
    let start = fresh(tasks, ceiling);
    if n == 0 {
        lemma_no_slots(start.states);
        lemma_requests_within_slots(start.states);
    } else {
        lemma_rerun_makes_no_request(tasks, ceiling, (n - 1) as nat);
        let w = resumed(start, (n - 1) as nat);
        let x = w.start_step(w.next as int, true, true);
        assert(w.admission() == Some(n - 1));
        lemma_slots_update(w.states, n - 1, x.states[n - 1]);
        lemma_requests_update(w.states, n - 1, x.states[n - 1]);
    }
}

/// When a batch that was not halted is over, every task has its
/// outcome.
pub proof fn lemma_finished_all_done(v: DownloaderView)
    requires
        v.well_formed(),
        v.finished(),
        !v.halted,
    ensures
        forall|i: int| 0 <= i < v.states.len() ==> #[trigger] v.states[i] is Done,
{
    assert forall|i: int| 0 <= i < v.states.len() implies #[trigger] v.states[i] is Done by {
        if holds_slot(v.states[i]) {
            lemma_slot_counted(v.states, i);
        }
    }
}

/// A batch under a ceiling above zero never stalls: until it is over,
/// a task may start or a task holds a slot and its result is due.
pub proof fn lemma_never_stalls(v: DownloaderView)
    requires
        v.well_formed(),
        v.ceiling > 0,
        !v.finished(),
    ensures
        v.admission().is_some() || exists|i: int|
            0 <= i < v.states.len() && holds_slot(#[trigger] v.states[i]),
{
    if forall|i: int| 0 <= i < v.states.len() ==> !holds_slot(#[trigger] v.states[i]) {
        lemma_no_slots(v.states);
    }
}

/// A task that has its outcome keeps it: no step changes it.
pub proof fn lemma_outcome_is_final(
    v: DownloaderView,
    i: int,
    index: int,
    dest_exists: bool,
    url_ok: bool,
    result: FetchResult,
    written: bool,
)
    requires
        v.well_formed(),
        0 <= i < v.states.len(),
        v.states[i] is Done,
    ensures
        v.start_step(index, dest_exists, url_ok).states[i] == v.states[i],
        v.complete_step(index, result).states[i] == v.states[i],
        v.persist_step(index, written).states[i] == v.states[i],
{
}

/// Changing one task's state changes the outstanding requests by that
/// task's share alone.
pub proof fn lemma_requests_update(states: Seq<TaskState>, i: int, s: TaskState)
    requires
        0 <= i < states.len(),
    ensures
        requests_outstanding(states.update(i, s)) + (if states[i] is Fetching {
            1nat
        } else {
            0nat
        }) == requests_outstanding(states) + (if s is Fetching {
            1nat
        } else {
            0nat
        }),
    decreases states.len(),
{
    if i == states.len() - 1 {
        assert(states.update(i, s).drop_last() =~= states.drop_last());
    } else {
        lemma_requests_update(states.drop_last(), i, s);
        assert(states.update(i, s).drop_last() =~= states.drop_last().update(i, s));
    }
}

/// Whether the URL parser accepts `link` as an absolute URL. The parser's
/// verdict depends on the text alone.
pub uninterp spec fn url_is_valid(link: Seq<char>) -> bool;

/// Calls `reqwest::Url::parse` on `link` and tells whether it returned a
/// URL rather than a parse error. Trusted: that the verdict is the one
/// named `url_is_valid`, the same for the same text.
#[verifier::external_body]
fn url_parses(link: &str) -> (ok: bool)
    ensures
        ok == url_is_valid(link@),
{
    reqwest::Url::parse(link).is_ok()
}

/// Drives a set of download tasks under a ceiling on the tasks in flight.
pub struct Downloader {
    tasks: Vec<DownloadTask>,
    states: Vec<TaskState>,
    ceiling: usize,
    next: usize,
    in_flight: usize,
    halted: bool,
}

impl Downloader {
    pub closed spec fn view(&self) -> DownloaderView {
        DownloaderView {
            tasks: self.tasks@.map_values(|t: DownloadTask| t@),
            states: self.states@,
            next: self.next as nat,
            ceiling: self.ceiling as nat,
            halted: self.halted,
        }
    }

    /// The state is well formed and the count of slots held is exact.
    pub closed spec fn wf(&self) -> bool {
        &&& self@.well_formed()
        &&& self.in_flight == slots_held(self.states@)
    }

    /// In a well-formed downloader the outstanding requests are within
    /// the ceiling.
    pub proof fn lemma_wf(&self)
        requires
            self.wf(),
        ensures
            self@.well_formed(),
            requests_outstanding(self@.states) <= self@.ceiling,
    {
        lemma_bounded_concurrency(self@);
    }

    /// A downloader over `tasks`, all pending, that lets at most
    /// `max_in_flight` of them hold a slot at once.
    pub fn new(tasks: Vec<DownloadTask>, max_in_flight: usize) -> (d: Self)
        ensures
            d.wf(),
            d@ == fresh(tasks@.map_values(|t: DownloadTask| t@), max_in_flight as nat),
    {
        let n = tasks.len();
        let mut states: Vec<TaskState> = Vec::new();
        let mut i: usize = 0;
        while i < n
            invariant
                i <= n,
                states@ == Seq::new(i as nat, |j: int| TaskState::Pending),
            decreases n - i,
        {
            states.push(TaskState::Pending);
            proof {
                assert(states@ =~= Seq::new((i + 1) as nat, |j: int| TaskState::Pending));
            }
            i += 1;
        }
        proof {
            lemma_no_slots(states@);
        }
        Downloader { tasks, states, ceiling: max_in_flight, next: 0, in_flight: 0, halted: false }
    }

    /// The number of tasks.
    pub fn len(&self) -> (n: usize)
        requires
            self.wf(),
        ensures
            n == self@.tasks.len(),
    {
        self.tasks.len()
    }

    /// The task at `index`.
    pub fn task(&self, index: usize) -> (t: &DownloadTask)
        requires
            self.wf(),
            index < self@.tasks.len(),
        ensures
            t@ == self@.tasks[index as int],
    {
        &self.tasks[index]
    }

    /// The state of the task at `index`; `None` past the last task.
    pub fn state(&self, index: usize) -> (s: Option<TaskState>)
        requires
            self.wf(),
        ensures
            s == if index < self@.states.len() {
                Some(self@.states[index as int])
            } else {
                None
            },
    {
        if index < self.states.len() {
            Some(self.states[index])
        } else {
            None
        }
    }

    /// The outcome of the task at `index`, once it has one.
    pub fn outcome(&self, index: usize) -> (o: Option<DownloadOutcome>)
        requires
            self.wf(),
        ensures
            o == if index < self@.states.len() {
                match self@.states[index as int] {
                    TaskState::Done(x) => Some(x),
                    _ => None,
                }
            } else {
                None
            },
    {
        if index < self.states.len() {
            match self.states[index] {
                TaskState::Done(x) => Some(x),
                _ => None,
            }
        } else {
            None
        }
    }

    /// The number of tasks that hold a slot.
    pub fn in_flight(&self) -> (n: usize)
        requires
            self.wf(),
        ensures
            n == slots_held(self@.states),
            n <= self@.ceiling,
    {
        self.in_flight
    }

    /// The ceiling on the tasks in flight.
    pub fn ceiling(&self) -> (c: usize)
        ensures
            c == self@.ceiling,
    {
        self.ceiling
    }

    /// Whether a fatal outcome has stopped admission.
    pub fn is_halted(&self) -> (h: bool)
        ensures
            h == self@.halted,
    {
        self.halted
    }

    /// The task that may start now, if any.
    pub fn next_admission(&self) -> (r: Option<usize>)
        requires
            self.wf(),
        ensures
            match r {
                Some(i) => self@.admission() == Some(i as int),
                None => self@.admission().is_none(),
            },
    {
        if !self.halted && self.in_flight < self.ceiling && self.next < self.states.len() {
            Some(self.next)
        } else {
            None
        }
    }

    /// Starts task `index`, given whether its destination already exists
    /// and whether its URL can be requested. An existing destination ends
    /// the task at once as `SkippedAlreadyPresent`, with no request; a
    /// URL that cannot be requested ends it as `Failed(InvalidUrl)`;
    /// otherwise the task takes a slot and its request is to be sent.
    /// Any `index` but the one that `next_admission` gives is refused.
    pub fn start_checked(&mut self, index: usize, dest_exists: bool, url_ok: bool) -> (a: Admission)
        requires
            old(self).wf(),
        ensures
            final(self).wf(),
            a == old(self)@.start_reply(index as int, dest_exists, url_ok),
            final(self)@ == old(self)@.start_step(index as int, dest_exists, url_ok),
    {
        let due = match self.next_admission() {
            Some(i) => i == index,
            None => false,
        };
        if !due {
            return Admission::Refused;
        }
        let n = self.states.len();
        assert(self.next == index && index < n);
        let reply = if dest_exists {
            Admission::Skipped
        } else if !url_ok {
            Admission::Invalid
        } else {
            Admission::Fetch
        };
        let new_state = match reply {
            Admission::Skipped => TaskState::Done(DownloadOutcome::SkippedAlreadyPresent),
            Admission::Invalid => TaskState::Done(DownloadOutcome::Failed(FailReason::InvalidUrl)),
            _ => TaskState::Fetching,
        };
        proof {
            lemma_slots_update(self.states@, index as int, new_state);
        }
        self.states[index] = new_state;
        self.next = self.next + 1;
        match reply {
            Admission::Fetch => {
                self.in_flight = self.in_flight + 1;
            },
            _ => {},
        }
        reply
    }

    /// Starts task `index`, given whether its destination already
    /// exists: `start_checked` with the verdict of the URL parser on the
    /// task's URL.
    pub fn start(&mut self, index: usize, dest_exists: bool) -> (a: Admission)
        requires
            old(self).wf(),
        ensures
            final(self).wf(),
            index >= old(self)@.tasks.len() ==> a == Admission::Refused,
            index >= old(self)@.tasks.len() ==> final(self)@ == old(self)@,
            index < old(self)@.tasks.len() ==> a == old(self)@.start_reply(
                index as int,
                dest_exists,
                url_is_valid(old(self)@.tasks[index as int].url),
            ) && final(self)@ == old(self)@.start_step(
                index as int,
                dest_exists,
                url_is_valid(old(self)@.tasks[index as int].url),
            ),
    {
        if index >= self.tasks.len() {
            return Admission::Refused;
        }
        let url_ok = url_parses(self.tasks[index].url.as_str());
        self.start_checked(index, dest_exists, url_ok)
    }

    /// Takes the result of the fetch of task `index`. A success is to be
    /// persisted and keeps its slot; any other result ends the task and
    /// frees the slot; a 403 also halts admission. A task without an
    /// outstanding request is refused.
    pub fn complete(&mut self, index: usize, result: FetchResult) -> (c: Completion)
        requires
            old(self).wf(),
        ensures
            final(self).wf(),
            c == old(self)@.complete_reply(index as int, result),
            final(self)@ == old(self)@.complete_step(index as int, result),
    {
        if index >= self.states.len() {
            return Completion::Refused;
        }
        match self.states[index] {
            TaskState::Fetching => {},
            _ => {
                return Completion::Refused;
            },
        }
        proof {
            lemma_slot_counted(self.states@, index as int);
        }
        match classify(result) {
            Verdict::Persist => {
                proof {
                    lemma_slots_update(self.states@, index as int, TaskState::Persisting);
                }
                self.states[index] = TaskState::Persisting;
                Completion::Persist
            },
            Verdict::Done(o) => {
                proof {
                    lemma_slots_update(self.states@, index as int, TaskState::Done(o));
                }
                self.states[index] = TaskState::Done(o);
                self.in_flight = self.in_flight - 1;
                if o.fatal() {
                    self.halted = true;
                }
                Completion::Finished(o)
            },
        }
    }

    /// Takes the result of writing the body of task `index`: the task
    /// ends as `Saved`, or as `Failed(Io)` where the write failed, and
    /// frees its slot. `None`, and no change, where the task is not
    /// being written.
    pub fn persisted(&mut self, index: usize, written: bool) -> (o: Option<DownloadOutcome>)
        requires
            old(self).wf(),
        ensures
            final(self).wf(),
            o == old(self)@.persist_reply(index as int, written),
            final(self)@ == old(self)@.persist_step(index as int, written),
    {
        if index >= self.states.len() {
            return None;
        }
        match self.states[index] {
            TaskState::Persisting => {},
            _ => {
                return None;
            },
        }
        let outcome = if written {
            DownloadOutcome::Saved
        } else {
            DownloadOutcome::Failed(FailReason::Io)
        };
        proof {
            lemma_slot_counted(self.states@, index as int);
            lemma_slots_update(self.states@, index as int, TaskState::Done(outcome));
        }
        self.states[index] = TaskState::Done(outcome);
        self.in_flight = self.in_flight - 1;
        Some(outcome)
    }

    /// Whether the batch is over.
    pub fn is_finished(&self) -> (r: bool)
        requires
            self.wf(),
        ensures
            r == self@.finished(),
    {
        self.in_flight == 0 && (self.halted || self.next == self.states.len())
    }
}

} // verus!
