//! Bounded job queue for the unified executor.
//!
//! Holds two job kinds: `Manual` (user-triggered, gated by pause) and
//! `Scheduled` (periodic sweep, never paused). `pop_next` gives manual jobs
//! priority, and only scheduled jobs while paused. A separate freeze flag halts
//! everything: nothing is handed out until the queue is unfrozen.
//!
//! Finished jobs move to a bounded `recent` history; lifetime `done` and
//! `failed` counters feed the status.
use vstd::prelude::*;
use vstd::string::*;
use std::collections::VecDeque;
use crate::clock;
use crate::labels;
use crate::numbers;
use crate::scrape::ScrapeStatus;
use crate::text;

verus! {

/// How many finished jobs to keep for display.
pub const HISTORY_CAP: usize = 100;

/// Job origin and scheduling class.
#[derive(Debug, Clone, Copy, PartialEq, Eq, Structural)]
pub enum JobKind {
    /// User-triggered; gated by pause.
    Manual,
    /// Periodic sweep; runs even while paused.
    Scheduled,
}

/// Job lifecycle state.
#[derive(Debug, Clone, Copy, PartialEq, Eq, Structural)]
pub enum JobState {
    /// Waiting to be picked up.
    Pending,
    /// Currently being scraped.
    Running,
    /// Finished successfully.
    Done,
    /// Finished with a scrape error.
    Failed,
    /// Removed before it ran.
    Cancelled,
}

/// One queued scrape.
#[derive(Debug, Clone)]
pub struct Job {
    /// Unique id.
    pub id: String,
    /// Target name (`scrape_target` label).
    pub target: String,
    /// `/metrics` URL.
    pub url: String,
    /// Accepted series prefixes.
    pub allow: Vec<String>,
    /// Manual or scheduled.
    pub kind: JobKind,
    /// Current state.
    pub state: JobState,
    /// Unix seconds when queued.
    pub enqueued_at: u64,
    /// Unix seconds when started.
    pub started_at: Option<u64>,
    /// Unix seconds when finished.
    pub finished_at: Option<u64>,
    /// Samples stored (on success).
    pub samples: usize,
    /// Over-cap samples dropped.
    pub dropped: usize,
    /// Failure detail (on failure).
    pub error: Option<String>,
}

/// What a [`Job`] holds.
#[verifier::ext_equal]
pub struct JobView {
    pub id: Seq<char>,
    pub target: Seq<char>,
    pub url: Seq<char>,
    pub allow: Seq<Seq<char>>,
    pub kind: JobKind,
    pub state: JobState,
    pub enqueued_at: u64,
    pub started_at: Option<u64>,
    pub finished_at: Option<u64>,
    pub samples: usize,
    pub dropped: usize,
    pub error: Option<Seq<char>>,
}

impl DeepView for Job {
    type V = JobView;

    open spec fn deep_view(&self) -> JobView {
        JobView {
            id: self.id@,
            target: self.target@,
            url: self.url@,
            allow: self.allow.deep_view(),
            kind: self.kind,
            state: self.state,
            enqueued_at: self.enqueued_at,
            started_at: self.started_at,
            finished_at: self.finished_at,
            samples: self.samples,
            dropped: self.dropped,
            error: self.error.deep_view(),
        }
    }
}

impl Job {
    /// A copy of this job.
    pub fn copy(&self) -> (r: Self)
        ensures
            r.deep_view() == self.deep_view(),
    {
        let error = match &self.error {
            Some(e) => Some(e.clone()),
            None => None,
        };
        Job {
            id: self.id.clone(),
            target: self.target.clone(),
            url: self.url.clone(),
            allow: labels::clone_texts(&self.allow),
            kind: self.kind,
            state: self.state,
            enqueued_at: self.enqueued_at,
            started_at: self.started_at,
            finished_at: self.finished_at,
            samples: self.samples,
            dropped: self.dropped,
            error,
        }
    }
}

/// Queue mutation failures.
#[derive(Debug)]
pub enum QueueError {
    /// Bounded queue is full.
    Full(usize),
    /// No pending job with that id.
    NotFound(String),
}

impl QueueError {
    /// What went wrong.
    pub fn message(&self) -> (r: String)
        ensures
            r@ == match self {
                QueueError::Full(cap) => "queue full ("@ + text::decimal(*cap as nat) + ")"@,
                QueueError::NotFound(id) => "unknown or non-pending job "@ + id@,
            },
    {
        match self {
            QueueError::Full(cap) => text::cat3(
                "queue full (",
                text::number(*cap as u128).as_str(),
                ")",
            ),
            QueueError::NotFound(id) => text::cat("unknown or non-pending job ", id.as_str()),
        }
    }
}

/// Display snapshot of the queue.
#[derive(Debug)]
pub struct QueueSummary {
    /// Number of pending jobs.
    pub depth: usize,
    /// Queue capacity.
    pub cap: usize,
    /// True when manual jobs are held.
    pub paused: bool,
    /// True when the whole executor is frozen (nothing runs).
    pub frozen: bool,
    /// Currently running job, if any.
    pub running: Option<Job>,
    /// Pending jobs (FIFO order).
    pub pending: Vec<Job>,
    /// Most recent finished jobs, newest first.
    pub recent: Vec<Job>,
    /// Lifetime completed job count.
    pub done: u64,
    /// Lifetime failed job count.
    pub failed: u64,
}

/// Bounded, pausable job queue shared by the executor and control API.
#[derive(Debug)]
pub struct JobQueue {
    cap: usize,
    paused: bool,
    frozen: bool,
    pending: VecDeque<Job>,
    running: Option<Job>,
    recent: VecDeque<Job>,
    done: u64,
    failed: u64,
    issued: u64,
}

/// What a [`JobQueue`] holds; `issued` is the number that the next job id takes.
#[verifier::ext_equal]
pub struct QueueView {
    pub cap: usize,
    pub paused: bool,
    pub frozen: bool,
    pub pending: Seq<JobView>,
    pub running: Option<JobView>,
    pub recent: Seq<JobView>,
    pub done: u64,
    pub failed: u64,
    pub issued: u64,
}

impl View for JobQueue {
    type V = QueueView;

    closed spec fn view(&self) -> QueueView {
        QueueView {
            cap: self.cap,
            paused: self.paused,
            frozen: self.frozen,
            pending: self.pending.deep_view(),
            running: self.running.deep_view(),
            recent: self.recent.deep_view(),
            done: self.done,
            failed: self.failed,
            issued: self.issued,
        }
    }
}

/// The id of the job with number `n`, queued at `now`.
pub open spec fn job_id(now: u64, n: u64) -> Seq<char> {
    "j"@ + text::decimal(now as nat) + (":"@ + text::decimal(n as nat))
}

/// A job as it is queued.
pub open spec fn new_job(
    q: QueueView,
    target: Seq<char>,
    url: Seq<char>,
    allow: Seq<Seq<char>>,
    kind: JobKind,
    now: u64,
) -> JobView {
    JobView {
        id: job_id(now, q.issued),
        target,
        url,
        allow,
        kind,
        state: JobState::Pending,
        enqueued_at: now,
        started_at: None,
        finished_at: None,
        samples: 0,
        dropped: 0,
        error: None,
    }
}

/// The queue with `job` behind the others.
pub open spec fn enqueued(q: QueueView, job: JobView) -> QueueView {
    QueueView { pending: q.pending.push(job), issued: numbers::next_number(q.issued), ..q }
}

/// `j` is a scheduled job for `target`.
pub open spec fn sweeps(j: JobView, target: Seq<char>) -> bool {
    j.kind == JobKind::Scheduled && j.target == target
}

/// A scheduled job for `target` is pending or running.
pub open spec fn already_scheduled(q: QueueView, target: Seq<char>) -> bool {
    ||| exists|i: int| 0 <= i < q.pending.len() && sweeps(#[trigger] q.pending[i], target)
    ||| q.running is Some && sweeps(q.running->0, target)
}

/// Where the first job of that kind stands, or the length of `jobs`.
pub open spec fn first_of(jobs: Seq<JobView>, kind: JobKind) -> nat
    decreases jobs.len(),
{
    if jobs.len() == 0 || jobs[0].kind == kind {
        0
    } else {
        1 + first_of(jobs.subrange(1, jobs.len() as int), kind)
    }
}

/// Which pending job is next: the first manual one unless the queue is paused,
/// else the first scheduled one; none while the queue is frozen.
pub open spec fn next_index(q: QueueView) -> Option<int> {
    let manual = first_of(q.pending, JobKind::Manual);
    let scheduled = first_of(q.pending, JobKind::Scheduled);
    if q.frozen {
        None
    } else if !q.paused && manual < q.pending.len() {
        Some(manual as int)
    } else if scheduled < q.pending.len() {
        Some(scheduled as int)
    } else {
        None
    }
}

/// The job as it is handed out.
pub open spec fn started(job: JobView, now: u64) -> JobView {
    JobView { state: JobState::Running, started_at: Some(now), ..job }
}

/// The queue after its job `i` was handed out.
pub open spec fn popped(q: QueueView, i: int, now: u64) -> QueueView {
    QueueView { pending: q.pending.remove(i), running: Some(started(q.pending[i], now)), ..q }
}

/// The job as it goes into the history.
pub open spec fn finished(
    job: JobView,
    status: ScrapeStatus,
    samples: usize,
    dropped: usize,
    error: Option<Seq<char>>,
    now: u64,
) -> JobView {
    JobView {
        state: if status == ScrapeStatus::Success {
            JobState::Done
        } else {
            JobState::Failed
        },
        samples,
        dropped,
        error,
        finished_at: Some(now),
        ..job
    }
}

/// The history with `job` in front, cut to its length.
pub open spec fn remembered(recent: Seq<JobView>, job: JobView) -> Seq<JobView> {
    cut(seq![job] + recent)
}

/// The newest jobs of `jobs`, as many as the history keeps.
pub open spec fn cut(jobs: Seq<JobView>) -> Seq<JobView> {
    if jobs.len() <= HISTORY_CAP {
        jobs
    } else {
        jobs.subrange(0, HISTORY_CAP as int)
    }
}

/// The queue after `job` finished.
pub open spec fn completed(
    q: QueueView,
    job: JobView,
    status: ScrapeStatus,
    samples: usize,
    dropped: usize,
    error: Option<Seq<char>>,
    now: u64,
) -> QueueView {
    QueueView {
        running: None,
        recent: remembered(q.recent, finished(job, status, samples, dropped, error, now)),
        done: if status == ScrapeStatus::Success {
            numbers::one_more(q.done)
        } else {
            q.done
        },
        failed: if status == ScrapeStatus::Success {
            q.failed
        } else {
            numbers::one_more(q.failed)
        },
        ..q
    }
}

/// The job as it is cancelled.
pub open spec fn cancelled_job(job: JobView, now: u64) -> JobView {
    JobView { state: JobState::Cancelled, finished_at: Some(now), ..job }
}

/// Where the first job with that id stands, or the length of `jobs`.
pub open spec fn first_with_id(jobs: Seq<JobView>, id: Seq<char>) -> nat
    decreases jobs.len(),
{
    if jobs.len() == 0 || jobs[0].id == id {
        0
    } else {
        1 + first_with_id(jobs.subrange(1, jobs.len() as int), id)
    }
}

/// The queue after its pending job `i` was cancelled.
pub open spec fn cancelled(q: QueueView, i: int, now: u64) -> QueueView {
    QueueView {
        pending: q.pending.remove(i),
        recent: remembered(q.recent, cancelled_job(q.pending[i], now)),
        ..q
    }
}

/// The history after all of `jobs` were cancelled, first to last.
pub open spec fn all_remembered(recent: Seq<JobView>, jobs: Seq<JobView>, now: u64) -> Seq<JobView>
    decreases jobs.len(),
{
    if jobs.len() == 0 {
        recent
    } else {
        remembered(
            all_remembered(recent, jobs.drop_last(), now),
            cancelled_job(jobs.last(), now),
        )
    }
}

/// The queue after every pending job was cancelled.
pub open spec fn cleared(q: QueueView, now: u64) -> QueueView {
    QueueView {
        pending: Seq::empty(),
        recent: all_remembered(q.recent, q.pending, now),
        ..q
    }
}

/// The job has come to its end.
pub open spec fn ended(job: JobView) -> bool {
    job.state == JobState::Done || job.state == JobState::Failed || job.state
        == JobState::Cancelled
}

/// Every one of `jobs` has come to its end.
pub open spec fn all_ended(jobs: Seq<JobView>) -> bool {
    forall|i: int| 0 <= i < jobs.len() ==> ended(#[trigger] jobs[i])
}

/// The queue keeps its promises: it has room for a job and never more jobs than
/// its capacity, a bounded history of jobs that have come to their end, pending
/// jobs that have not started, and at most one scheduled job for a target,
/// pending or running.
pub open spec fn sound(q: QueueView) -> bool {
    &&& q.cap >= 1
    &&& q.pending.len() <= q.cap
    &&& q.recent.len() <= HISTORY_CAP
    &&& all_ended(q.recent)
    &&& forall|i: int|
        0 <= i < q.pending.len() ==> (#[trigger] q.pending[i]).state == JobState::Pending
            && q.pending[i].started_at is None && q.pending[i].finished_at is None
    &&& q.running is Some ==> q.running->0.state == JobState::Running
    &&& forall|i: int, j: int|
        0 <= i < j < q.pending.len() && (#[trigger] q.pending[i]).kind == JobKind::Scheduled && (
        #[trigger] q.pending[j]).kind == JobKind::Scheduled ==> q.pending[i].target
            != q.pending[j].target
    &&& forall|i: int|
        0 <= i < q.pending.len() && q.running is Some && (#[trigger] q.pending[i]).kind
            == JobKind::Scheduled ==> !sweeps(q.running->0, q.pending[i].target)
}

/// Where the first job of that kind stands, or the length of `jobs`.
fn find_kind(jobs: &VecDeque<Job>, kind: JobKind) -> (r: usize)
    ensures
        r == first_of(jobs.deep_view(), kind),
        r <= jobs.len(),
{
    let mut i: usize = 0;
    while i < jobs.len() && jobs[i].kind != kind
        invariant
            i <= jobs.len(),
            forall|k: int| 0 <= k < i ==> (#[trigger] jobs.deep_view()[k]).kind != kind,
        decreases jobs.len() - i,
    {
        assert(jobs.deep_view()[i as int].kind == jobs@[i as int].kind);
        i = i + 1;
    }
    proof {
        if i < jobs.len() {
            assert(jobs.deep_view()[i as int].kind == jobs@[i as int].kind);
        }
        lemma_first_of_at(jobs.deep_view(), kind, i as int);
    }
    i
}

proof fn lemma_first_of_at(jobs: Seq<JobView>, kind: JobKind, i: int)
    requires
        0 <= i <= jobs.len(),
        forall|k: int| 0 <= k < i ==> (#[trigger] jobs[k]).kind != kind,
        i < jobs.len() ==> jobs[i].kind == kind,
    ensures
        first_of(jobs, kind) == i,
    decreases jobs.len(),
{
    if i > 0 {
        let rest = jobs.subrange(1, jobs.len() as int);
        assert forall|k: int| 0 <= k < i - 1 implies (#[trigger] rest[k]).kind != kind by {
            assert(rest[k] == jobs[k + 1]);
        }
        assert(jobs[0].kind != kind);
        lemma_first_of_at(rest, kind, i - 1);
    }
}

/// Where the first job with that id stands, or the length of `jobs`.
fn find_id(jobs: &VecDeque<Job>, id: &str) -> (r: usize)
    ensures
        r == first_with_id(jobs.deep_view(), id@),
        r <= jobs.len(),
{
    let mut i: usize = 0;
    while i < jobs.len() && !text::same(jobs[i].id.as_str(), id)
        invariant
            i <= jobs.len(),
            forall|k: int| 0 <= k < i ==> (#[trigger] jobs.deep_view()[k]).id != id@,
        decreases jobs.len() - i,
    {
        assert(jobs.deep_view()[i as int].id == jobs@[i as int].id@);
        i = i + 1;
    }
    proof {
        if i < jobs.len() {
            assert(jobs.deep_view()[i as int].id == jobs@[i as int].id@);
        }
        lemma_first_with_id_at(jobs.deep_view(), id@, i as int);
    }
    i
}

pub(crate) proof fn lemma_first_with_id_at(jobs: Seq<JobView>, id: Seq<char>, i: int)
    requires
        0 <= i <= jobs.len(),
        forall|k: int| 0 <= k < i ==> (#[trigger] jobs[k]).id != id,
        i < jobs.len() ==> jobs[i].id == id,
    ensures
        first_with_id(jobs, id) == i,
    decreases jobs.len(),
{
    if i > 0 {
        let rest = jobs.subrange(1, jobs.len() as int);
        assert forall|k: int| 0 <= k < i - 1 implies (#[trigger] rest[k]).id != id by {
            assert(rest[k] == jobs[k + 1]);
        }
        assert(jobs[0].id != id);
        lemma_first_with_id_at(rest, id, i - 1);
    }
}

/// Puts `job` in front of the history and cuts it to its length.
fn push_recent(recent: &mut VecDeque<Job>, job: Job)
    ensures
        final(recent).deep_view() == remembered(old(recent).deep_view(), job.deep_view()),
{
    let ghost before = recent.deep_view();
    let ghost jv = job.deep_view();
    recent.push_front(job);
    assert(recent.deep_view() =~= seq![jv] + before);
    recent.truncate(HISTORY_CAP);
    assert(recent.deep_view() =~= remembered(before, jv));
}

/// The id of the job with number `n`, queued at `now`.
fn job_id_text(now: u64, n: u64) -> (r: String)
    ensures
        r@ == job_id(now, n),
{
    let tail = text::cat(":", text::number(n as u128).as_str());
    text::cat3("j", text::number(now as u128).as_str(), tail.as_str())
}

/// What a request to queue a job does: a full queue refuses it and stays as it
/// is, else the job stands behind the others.
pub open spec fn takes(
    before: QueueView,
    after: QueueView,
    r: Result<JobView, QueueError>,
    job: JobView,
) -> bool {
    match r {
        Ok(j) => before.pending.len() < before.cap && j == job && after == enqueued(before, job),
        Err(e) => before.pending.len() >= before.cap && e == QueueError::Full(before.cap) && after
            == before,
    }
}

/// What a sweep's request to queue a job does: where one for the target is
/// pending or running nothing happens, else it is queued like any other.
pub open spec fn takes_once(
    before: QueueView,
    after: QueueView,
    r: Result<Option<JobView>, QueueError>,
    job: JobView,
) -> bool {
    if already_scheduled(before, job.target) {
        r == Ok::<_, QueueError>(None::<JobView>) && after == before
    } else {
        match r {
            Ok(None) => false,
            Ok(Some(j)) => takes(before, after, Ok(j), job),
            Err(e) => takes(before, after, Err(e), job),
        }
    }
}

/// The jobs of a result.
pub open spec fn job_result(r: Result<Job, QueueError>) -> Result<JobView, QueueError> {
    match r {
        Ok(j) => Ok(j.deep_view()),
        Err(e) => Err(e),
    }
}

/// The jobs of a result.
pub open spec fn maybe_job_result(r: Result<Option<Job>, QueueError>) -> Result<
    Option<JobView>,
    QueueError,
> {
    match r {
        Ok(j) => Ok(j.deep_view()),
        Err(e) => Err(e),
    }
}

/// What handing out a job does: the next one starts, or nothing changes.
pub open spec fn hands_out(
    before: QueueView,
    after: QueueView,
    r: Option<JobView>,
    now: u64,
) -> bool {
    match next_index(before) {
        Some(i) => r == Some(started(before.pending[i], now)) && after == popped(before, i, now),
        None => r is None && after == before,
    }
}

/// What cancelling the job with that id does: the first pending one leaves for
/// the history; where there is none nothing changes.
pub open spec fn cancels(
    before: QueueView,
    after: QueueView,
    r: Result<JobView, QueueError>,
    id: Seq<char>,
    now: u64,
) -> bool {
    let i = first_with_id(before.pending, id) as int;
    match r {
        Ok(j) => i < before.pending.len() && j == cancelled_job(before.pending[i], now) && after
            == cancelled(before, i, now),
        Err(e) => i == before.pending.len() && e is NotFound && e->NotFound_0@ == id && after
            == before,
    }
}

impl JobQueue {
    /// New queue holding at most `cap` pending jobs (at least one). Its job ids
    /// are numbered from `first_number` on: one that no other queue of the
    /// process has given out keeps them apart.
    #[must_use]
    pub fn new(cap: usize, first_number: u64) -> (r: Self)
        ensures
            sound(r@),
            r@ == (QueueView {
                cap: if cap == 0 {
                    1
                } else {
                    cap
                },
                paused: false,
                frozen: false,
                pending: Seq::empty(),
                running: None,
                recent: Seq::empty(),
                done: 0,
                failed: 0,
                issued: first_number,
            }),
    {
        let r = JobQueue {
            cap: if cap == 0 {
                1
            } else {
                cap
            },
            paused: false,
            frozen: false,
            pending: VecDeque::new(),
            running: None,
            recent: VecDeque::new(),
            done: 0,
            failed: 0,
            issued: first_number,
        };
        assert(r@.pending =~= Seq::empty());
        assert(r@.recent =~= Seq::empty());
        r
    }

    /// The number that the next job id takes.
    #[must_use]
    pub fn next_number(&self) -> (r: u64)
        ensures
            r == self@.issued,
    {
        self.issued
    }

    /// Puts a job behind the others, unless the queue is full.
    fn enqueue(
        &mut self,
        target: &str,
        url: &str,
        allow: Vec<String>,
        kind: JobKind,
        now: u64,
    ) -> (r: Result<Job, QueueError>)
        ensures
            takes(
                old(self)@,
                final(self)@,
                job_result(r),
                new_job(old(self)@, target@, url@, allow.deep_view(), kind, now),
            ),
    {
        assert(self@.pending.len() == self.pending.len());
        if self.pending.len() >= self.cap {
            return Err(QueueError::Full(self.cap));
        }
        let ghost before = self@;
        let job = Job {
            id: job_id_text(now, self.issued),
            target: target.to_string(),
            url: url.to_string(),
            allow,
            kind,
            state: JobState::Pending,
            enqueued_at: now,
            started_at: None,
            finished_at: None,
            samples: 0,
            dropped: 0,
            error: None,
        };
        self.issued = self.issued.wrapping_add(1);
        self.pending.push_back(job.copy());
        assert(self@.pending =~= before.pending.push(job.deep_view()));
        assert(self@ =~= enqueued(before, job.deep_view()));
        Ok(job)
    }

    /// Enqueue a manual job at the time `now`.
    pub fn enqueue_manual_at(&mut self, target: &str, url: &str, allow: Vec<String>, now: u64) -> (r:
        Result<Job, QueueError>)
        requires
            sound(old(self)@),
        ensures
            sound(final(self)@),
            takes(
                old(self)@,
                final(self)@,
                job_result(r),
                new_job(old(self)@, target@, url@, allow.deep_view(), JobKind::Manual, now),
            ),
    {
        self.enqueue(target, url, allow, JobKind::Manual, now)
    }

    /// Enqueue a manual (user-triggered) job.
    pub fn enqueue_manual(&mut self, target: &str, url: &str, allow: Vec<String>) -> (r: Result<
        Job,
        QueueError,
    >)
        requires
            sound(old(self)@),
        ensures
            sound(final(self)@),
            exists|now: u64|
                takes(
                    old(self)@,
                    final(self)@,
                    job_result(r),
                    #[trigger] new_job(
                        old(self)@,
                        target@,
                        url@,
                        allow.deep_view(),
                        JobKind::Manual,
                        now,
                    ),
                ),
    {
        self.enqueue_manual_at(target, url, allow, clock::now_unix())
    }

    /// Whether a scheduled job for `target` is pending or running.
    fn is_scheduled(&self, target: &str) -> (r: bool)
        ensures
            r == already_scheduled(self@, target@),
    {
        let mut i: usize = 0;
        while i < self.pending.len()
            invariant
                i <= self.pending.len(),
                forall|k: int| 0 <= k < i ==> !sweeps(#[trigger] self@.pending[k], target@),
            decreases self.pending.len() - i,
        {
            assert(self@.pending[i as int] == self.pending@[i as int].deep_view());
            if self.pending[i].kind == JobKind::Scheduled && text::same(
                self.pending[i].target.as_str(),
                target,
            ) {
                return true;
            }
            i = i + 1;
        }
        assert(self@.pending.len() == self.pending.len());
        match &self.running {
            Some(j) => j.kind == JobKind::Scheduled && text::same(j.target.as_str(), target),
            None => false,
        }
    }

    /// Enqueue a scheduled job at the time `now`, unless one for `target` is
    /// already pending or running.
    pub fn enqueue_scheduled_at(
        &mut self,
        target: &str,
        url: &str,
        allow: Vec<String>,
        now: u64,
    ) -> (r: Result<Option<Job>, QueueError>)
        requires
            sound(old(self)@),
        ensures
            sound(final(self)@),
            takes_once(
                old(self)@,
                final(self)@,
                maybe_job_result(r),
                new_job(old(self)@, target@, url@, allow.deep_view(), JobKind::Scheduled, now),
            ),
    {
        if self.is_scheduled(target) {
            return Ok(None);
        }
        match self.enqueue(target, url, allow, JobKind::Scheduled, now) {
            Ok(job) => Ok(Some(job)),
            Err(e) => Err(e),
        }
    }

    /// Enqueue a scheduled job unless one for `target` is already pending or
    /// running (so a slow target can't pile up). Returns the job when enqueued,
    /// `None` when deduplicated.
    pub fn enqueue_scheduled(&mut self, target: &str, url: &str, allow: Vec<String>) -> (r: Result<
        Option<Job>,
        QueueError,
    >)
        requires
            sound(old(self)@),
        ensures
            sound(final(self)@),
            exists|now: u64|
                takes_once(
                    old(self)@,
                    final(self)@,
                    maybe_job_result(r),
                    #[trigger] new_job(
                        old(self)@,
                        target@,
                        url@,
                        allow.deep_view(),
                        JobKind::Scheduled,
                        now,
                    ),
                ),
    {
        self.enqueue_scheduled_at(target, url, allow, clock::now_unix())
    }

    /// Pause manual-job pickup (scheduled jobs keep running).
    pub fn pause(&mut self)
        requires
            sound(old(self)@),
        ensures
            sound(final(self)@),
            final(self)@ == (QueueView { paused: true, ..old(self)@ }),
    {
        self.paused = true;
    }

    /// Resume manual-job pickup.
    pub fn resume(&mut self)
        requires
            sound(old(self)@),
        ensures
            sound(final(self)@),
            final(self)@ == (QueueView { paused: false, ..old(self)@ }),
    {
        self.paused = false;
    }

    /// Whether manual jobs are held.
    #[must_use]
    pub fn is_paused(&self) -> (r: bool)
        ensures
            r == self@.paused,
    {
        self.paused
    }

    /// Freeze the executor: nothing runs (scheduled included) until unfrozen.
    pub fn freeze(&mut self)
        requires
            sound(old(self)@),
        ensures
            sound(final(self)@),
            final(self)@ == (QueueView { frozen: true, ..old(self)@ }),
    {
        self.frozen = true;
    }

    /// Unfreeze the executor.
    pub fn unfreeze(&mut self)
        requires
            sound(old(self)@),
        ensures
            sound(final(self)@),
            final(self)@ == (QueueView { frozen: false, ..old(self)@ }),
    {
        self.frozen = false;
    }

    /// Whether the executor is frozen.
    #[must_use]
    pub fn is_frozen(&self) -> (r: bool)
        ensures
            r == self@.frozen,
    {
        self.frozen
    }

    /// Next job to run, started at the time `now`.
    pub fn pop_next_at(&mut self, now: u64) -> (r: Option<Job>)
        requires
            sound(old(self)@),
        ensures
            sound(final(self)@),
            hands_out(old(self)@, final(self)@, r.deep_view(), now),
    {
        if self.frozen {
            return None;
        }
        let ghost before = self@;
        assert(before.pending.len() == self.pending.len());
        let manual: usize = find_kind(&self.pending, JobKind::Manual);
        let idx: usize = if !self.paused && manual < self.pending.len() {
            manual
        } else {
            find_kind(&self.pending, JobKind::Scheduled)
        };
        match self.pending.remove(idx) {
            None => None,
            Some(mut job) => {
                let ghost taken = job.deep_view();
                assert(taken == before.pending[idx as int]);
                job.state = JobState::Running;
                job.started_at = Some(now);
                self.running = Some(job.copy());
                assert(job.deep_view() =~= started(taken, now));
                assert(self@.pending =~= before.pending.remove(idx as int));
                assert(self@ =~= popped(before, idx as int, now));
                proof {
                    lemma_popped_sound(before, idx as int, now);
                }
                Some(job)
            },
        }
    }

    /// Next job to run: manual first, scheduled only while paused. Marks it
    /// `Running` and returns it. Returns `None` while frozen (nothing runs).
    pub fn pop_next(&mut self) -> (r: Option<Job>)
        requires
            sound(old(self)@),
        ensures
            sound(final(self)@),
            exists|now: u64| #[trigger] hands_out(old(self)@, final(self)@, r.deep_view(), now),
    {
        self.pop_next_at(clock::now_unix())
    }

    /// Record a job finished at the time `now`.
    pub fn complete_at(
        &mut self,
        job: Job,
        status: ScrapeStatus,
        samples: usize,
        dropped: usize,
        error: Option<String>,
        now: u64,
    )
        requires
            sound(old(self)@),
        ensures
            sound(final(self)@),
            final(self)@ == completed(
                old(self)@,
                job.deep_view(),
                status,
                samples,
                dropped,
                error.deep_view(),
                now,
            ),
    {
        let ghost before = self@;
        let ghost jv = job.deep_view();
        let mut job = job;
        job.state = if status == ScrapeStatus::Success {
            self.done = self.done.saturating_add(1);
            JobState::Done
        } else {
            self.failed = self.failed.saturating_add(1);
            JobState::Failed
        };
        job.samples = samples;
        job.dropped = dropped;
        job.error = error;
        job.finished_at = Some(now);
        assert(job.deep_view() =~= finished(
            jv,
            status,
            samples,
            dropped,
            error.deep_view(),
            now,
        ));
        self.running = None;
        push_recent(&mut self.recent, job);
        assert(self@ =~= completed(before, jv, status, samples, dropped, error.deep_view(), now));
    }

    /// Record a finished job: `Done` on success, else `Failed` with `error`.
    pub fn complete(
        &mut self,
        job: Job,
        status: ScrapeStatus,
        samples: usize,
        dropped: usize,
        error: Option<String>,
    )
        requires
            sound(old(self)@),
        ensures
            sound(final(self)@),
            exists|now: u64|
                final(self)@ == #[trigger] completed(
                    old(self)@,
                    job.deep_view(),
                    status,
                    samples,
                    dropped,
                    error.deep_view(),
                    now,
                ),
    {
        self.complete_at(job, status, samples, dropped, error, clock::now_unix())
    }

    /// Cancel one pending job at the time `now`.
    pub fn cancel_at(&mut self, id: &str, now: u64) -> (r: Result<Job, QueueError>)
        requires
            sound(old(self)@),
        ensures
            sound(final(self)@),
            cancels(old(self)@, final(self)@, job_result(r), id@, now),
    {
        let ghost before = self@;
        assert(before.pending.len() == self.pending.len());
        let idx: usize = find_id(&self.pending, id);
        match self.pending.remove(idx) {
            None => Err(QueueError::NotFound(id.to_string())),
            Some(mut job) => {
                let ghost taken = job.deep_view();
                assert(taken == before.pending[idx as int]);
                job.state = JobState::Cancelled;
                job.finished_at = Some(now);
                assert(job.deep_view() =~= cancelled_job(taken, now));
                push_recent(&mut self.recent, job.copy());
                assert(self@.pending =~= before.pending.remove(idx as int));
                assert(self@ =~= cancelled(before, idx as int, now));
                proof {
                    lemma_removed_sound(before.pending, idx as int, before);
                }
                Ok(job)
            },
        }
    }

    /// Cancel one pending job.
    pub fn cancel(&mut self, id: &str) -> (r: Result<Job, QueueError>)
        requires
            sound(old(self)@),
        ensures
            sound(final(self)@),
            exists|now: u64| #[trigger]
                cancels(old(self)@, final(self)@, job_result(r), id@, now),
    {
        self.cancel_at(id, clock::now_unix())
    }

    /// Drop every pending job at the time `now` (returns how many were
    /// cancelled).
    pub fn clear_pending_at(&mut self, now: u64) -> (r: usize)
        requires
            sound(old(self)@),
        ensures
            sound(final(self)@),
            r == old(self)@.pending.len(),
            final(self)@ == cleared(old(self)@, now),
    {
        let ghost before = self@;
        let mut n: usize = 0;
        assert(before.pending.len() == self.pending.len());
        assert(before.pending.subrange(0, 0) =~= Seq::empty());
        assert(before.pending.subrange(0, before.pending.len() as int) =~= before.pending);
        while self.pending.len() > 0
            invariant
                before == old(self)@,
                before.recent.len() <= HISTORY_CAP,
                n + self.pending.len() == before.pending.len(),
                before.pending.len() <= usize::MAX,
                self@.pending == before.pending.subrange(n as int, before.pending.len() as int),
                self@.recent == all_remembered(
                    before.recent,
                    before.pending.subrange(0, n as int),
                    now,
                ),
                self@.recent.len() <= HISTORY_CAP,
                all_ended(self@.recent),
                self@ == (QueueView {
                    pending: self@.pending,
                    recent: self@.recent,
                    ..before
                }),
            decreases self.pending.len(),
        {
            let ghost here = self@;
            match self.pending.pop_front() {
                None => {},
                Some(mut job) => {
                    let ghost taken = job.deep_view();
                    assert(taken == here.pending[0]);
                    assert(taken == before.pending[n as int]);
                    job.state = JobState::Cancelled;
                    job.finished_at = Some(now);
                    assert(job.deep_view() =~= cancelled_job(taken, now));
                    push_recent(&mut self.recent, job);
                    n = n + 1;
                    proof {
                        let part = before.pending.subrange(0, n as int);
                        assert(part.drop_last() =~= before.pending.subrange(0, n - 1));
                        assert(part.last() == taken);
                        assert(self@.pending =~= here.pending.subrange(
                            1,
                            here.pending.len() as int,
                        ));
                        assert(self@.pending =~= before.pending.subrange(
                            n as int,
                            before.pending.len() as int,
                        ));
                    }
                },
            }
        }
        assert(before.pending.subrange(0, n as int) =~= before.pending);
        assert(self@.pending =~= Seq::empty());
        assert(self@ =~= cleared(before, now));
        n
    }

    /// Drop every pending job (returns how many were cancelled).
    pub fn clear_pending(&mut self) -> (r: usize)
        requires
            sound(old(self)@),
        ensures
            sound(final(self)@),
            r == old(self)@.pending.len(),
            exists|now: u64| final(self)@ == #[trigger] cleared(old(self)@, now),
    {
        self.clear_pending_at(clock::now_unix())
    }

    /// Display snapshot.
    #[must_use]
    pub fn snapshot(&self) -> (r: QueueSummary)
        ensures
            r.depth == self@.pending.len(),
            r.cap == self@.cap,
            r.paused == self@.paused,
            r.frozen == self@.frozen,
            r.running.deep_view() == self@.running,
            r.pending.deep_view() == self@.pending,
            r.recent.deep_view() == self@.recent,
            r.done == self@.done,
            r.failed == self@.failed,
    {
        let running = match &self.running {
            Some(j) => Some(j.copy()),
            None => None,
        };
        QueueSummary {
            depth: self.pending.len(),
            cap: self.cap,
            paused: self.paused,
            frozen: self.frozen,
            running,
            pending: copy_jobs(&self.pending),
            recent: copy_jobs(&self.recent),
            done: self.done,
            failed: self.failed,
        }
    }
}

/// A copy of `jobs`.
fn copy_jobs(jobs: &VecDeque<Job>) -> (r: Vec<Job>)
    ensures
        r.deep_view() == jobs.deep_view(),
{
    let mut r: Vec<Job> = Vec::new();
    let mut i: usize = 0;
    while i < jobs.len()
        invariant
            i <= jobs.len(),
            r.len() == i,
            forall|k: int| 0 <= k < i ==> (#[trigger] r@[k]).deep_view() == jobs@[k].deep_view(),
        decreases jobs.len() - i,
    {
        r.push(jobs[i].copy());
        i = i + 1;
    }
    assert(r.deep_view() =~= jobs.deep_view());
    r
}

pub(crate) proof fn lemma_removed_sound(pending: Seq<JobView>, i: int, q: QueueView)
    requires
        sound(q),
        pending == q.pending,
        0 <= i < pending.len(),
    ensures
        sound(QueueView { pending: pending.remove(i), ..q }),
{
    let rest = pending.remove(i);
    assert forall|k: int| 0 <= k < rest.len() implies (#[trigger] rest[k]).state
        == JobState::Pending && rest[k].started_at is None && rest[k].finished_at is None by {
        assert(rest[k] == if k < i {
            pending[k]
        } else {
            pending[k + 1]
        });
    }
    assert forall|a: int, b: int|
        0 <= a < b < rest.len() && (#[trigger] rest[a]).kind == JobKind::Scheduled && (
        #[trigger] rest[b]).kind == JobKind::Scheduled implies rest[a].target != rest[b].target by {
        let x = if a < i {
            a
        } else {
            a + 1
        };
        let y = if b < i {
            b
        } else {
            b + 1
        };
        assert(rest[a] == pending[x] && rest[b] == pending[y]);
    }
    assert forall|k: int|
        0 <= k < rest.len() && q.running is Some && (#[trigger] rest[k]).kind
            == JobKind::Scheduled implies !sweeps(q.running->0, rest[k].target) by {
        assert(rest[k] == if k < i {
            pending[k]
        } else {
            pending[k + 1]
        });
    }
}

pub(crate) proof fn lemma_popped_sound(q: QueueView, i: int, now: u64)
    requires
        sound(q),
        0 <= i < q.pending.len(),
    ensures
        sound(popped(q, i, now)),
{
    lemma_removed_sound(q.pending, i, q);
    let rest = q.pending.remove(i);
    assert forall|k: int|
        0 <= k < rest.len() && (#[trigger] rest[k]).kind == JobKind::Scheduled implies !sweeps(
        started(q.pending[i], now),
        rest[k].target,
    ) by {
        let x = if k < i {
            k
        } else {
            k + 1
        };
        assert(rest[k] == q.pending[x]);
    }
}

}
