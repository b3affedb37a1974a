//! What the job queue promises across calls, over the states of
//! [`crate::queue::JobQueue`].
use vstd::prelude::*;
use vstd::string::*;
use crate::queue;
use crate::queue::{Job, JobKind, JobState, JobView, QueueError, QueueView};
use crate::scrape::ScrapeStatus;
use crate::text;

verus! {

/// A job of that kind is pending.
pub open spec fn waits(q: QueueView, kind: JobKind) -> bool {
    exists|i: int| 0 <= i < q.pending.len() && (#[trigger] q.pending[i]).kind == kind
}

proof fn lemma_first_of(jobs: Seq<JobView>, kind: JobKind)
    ensures
        queue::first_of(jobs, kind) <= jobs.len(),
        forall|k: int| 0 <= k < queue::first_of(jobs, kind) ==> (#[trigger] jobs[k]).kind != kind,
        queue::first_of(jobs, kind) < jobs.len() ==> jobs[queue::first_of(
            jobs,
            kind,
        ) as int].kind == kind,
    decreases jobs.len(),
{
    if jobs.len() > 0 && jobs[0].kind != kind {
        let rest = jobs.subrange(1, jobs.len() as int);
        lemma_first_of(rest, kind);
        assert forall|k: int| 0 <= k < queue::first_of(jobs, kind) implies (
        #[trigger] jobs[k]).kind != kind by {
            if k > 0 {
                assert(rest[k - 1] == jobs[k]);
            }
        }
    }
}

/// Manual jobs go first while the queue is running: as long as one waits, what
/// is handed out is manual.
pub proof fn law_manual_first(q: QueueView)
    requires
        !q.frozen,
        !q.paused,
        waits(q, JobKind::Manual),
    ensures
        queue::next_index(q) is Some,
        0 <= queue::next_index(q)->0 < q.pending.len(),
        q.pending[queue::next_index(q)->0].kind == JobKind::Manual,
{
    lemma_first_of(q.pending, JobKind::Manual);
    let i = choose|i: int| 0 <= i < q.pending.len() && (#[trigger] q.pending[i]).kind
        == JobKind::Manual;
    assert(queue::first_of(q.pending, JobKind::Manual) <= i);
}

/// Pause holds the manual jobs alone: while paused only scheduled jobs are
/// handed out, and they still are.
pub proof fn law_pause_holds_manual(q: QueueView)
    requires
        q.paused,
    ensures
        queue::next_index(q) is Some ==> 0 <= queue::next_index(q)->0 < q.pending.len()
            && q.pending[queue::next_index(q)->0].kind == JobKind::Scheduled,
        queue::next_index(q) is Some <==> !q.frozen && waits(q, JobKind::Scheduled),
{
    lemma_first_of(q.pending, JobKind::Scheduled);
    if waits(q, JobKind::Scheduled) {
        let i = choose|i: int| 0 <= i < q.pending.len() && (#[trigger] q.pending[i]).kind
            == JobKind::Scheduled;
        assert(queue::first_of(q.pending, JobKind::Scheduled) <= i);
    }
}

/// While frozen nothing is handed out and nothing leaves the queue.
pub proof fn law_freeze_halts(before: QueueView, after: QueueView, r: Option<JobView>, now: u64)
    requires
        before.frozen,
        queue::hands_out(before, after, r, now),
    ensures
        r is None,
        after == before,
{
}

/// An unpaused, unfrozen queue with a pending job always hands one out.
pub proof fn law_no_job_stuck(q: QueueView)
    requires
        !q.frozen,
        !q.paused,
        q.pending.len() > 0,
    ensures
        queue::next_index(q) is Some,
{
    lemma_first_of(q.pending, JobKind::Manual);
    lemma_first_of(q.pending, JobKind::Scheduled);
    let first = q.pending[0];
    if first.kind == JobKind::Manual {
        assert(queue::first_of(q.pending, JobKind::Manual) == 0);
    } else {
        assert(queue::first_of(q.pending, JobKind::Scheduled) == 0);
    }
}

/// Jobs of one kind are handed out in the order in which they were queued.
pub proof fn law_first_in_first_out(q: QueueView, k: int)
    requires
        queue::next_index(q) is Some,
        0 <= k < queue::next_index(q)->0,
    ensures
        q.pending[k].kind != q.pending[queue::next_index(q)->0].kind,
{
    lemma_first_of(q.pending, JobKind::Manual);
    lemma_first_of(q.pending, JobKind::Scheduled);
}

/// A scheduled job is not queued twice: once queued, a further request for its
/// target changes nothing while the job is pending and while it runs; when it
/// has finished the target is free again.
pub proof fn law_scheduled_once(q: QueueView, job: JobView, i: int, now: u64)
    requires
        queue::sound(q),
        0 <= i < q.pending.len(),
        q.pending[i] == job,
        job.kind == JobKind::Scheduled,
    ensures
        queue::already_scheduled(q, job.target),
        queue::already_scheduled(queue::popped(q, i, now), job.target),
        forall|status: ScrapeStatus, samples: usize, dropped: usize, error: Option<Seq<char>>|
            !queue::already_scheduled(
                #[trigger] queue::completed(
                    queue::popped(q, i, now),
                    queue::started(job, now),
                    status,
                    samples,
                    dropped,
                    error,
                    now,
                ),
                job.target,
            ),
{
    assert(queue::sweeps(q.pending[i], job.target));
    assert(queue::sweeps(queue::started(job, now), job.target));
    let rest = q.pending.remove(i);
    assert forall|k: int| 0 <= k < rest.len() implies !queue::sweeps(
        #[trigger] rest[k],
        job.target,
    ) by {
        let x = if k < i {
            k
        } else {
            k + 1
        };
        assert(rest[k] == q.pending[x]);
    }
}

/// A job is never lost: what is handed out becomes the running job and leaves
/// the pending ones, and the others stay in their order.
pub proof fn law_popped_runs(q: QueueView, i: int, now: u64)
    requires
        0 <= i < q.pending.len(),
    ensures
        queue::popped(q, i, now).running == Some(queue::started(q.pending[i], now)),
        queue::popped(q, i, now).pending.insert(i, q.pending[i]) == q.pending,
        queue::popped(q, i, now).recent == q.recent,
{
    assert(q.pending.remove(i).insert(i, q.pending[i]) =~= q.pending);
}

/// Job ids with different numbers differ, whatever the times.
pub proof fn law_job_ids_differ(now: u64, later: u64, m: u64, n: u64)
    requires
        m != n,
    ensures
        queue::job_id(now, m) != queue::job_id(later, n),
{
    reveal_strlit("j");
    reveal_strlit(":");
    if queue::job_id(now, m) == queue::job_id(later, n) {
        lemma_id_number(now, m);
        lemma_id_number(later, n);
        let id = queue::job_id(now, m);
        assert(text::decimal(m as nat) == text::decimal(n as nat));
        text::lemma_decimal_injective(m as nat, n as nat);
    }
}

proof fn lemma_id_number(now: u64, n: u64)
    ensures
        ({
            let id = queue::job_id(now, n);
            let colon = text::find(id, ':') as int;
            id.subrange(colon + 1, id.len() as int) == text::decimal(n as nat)
        }),
{
    reveal_strlit("j");
    reveal_strlit(":");
    let id = queue::job_id(now, n);
    let digits = text::decimal(now as nat);
    let k = 1 + digits.len() as int;
    assert forall|i: int| 0 <= i < k implies #[trigger] id[i] != ':' by {
        if i > 0 {
            assert(id[i] == digits[i - 1]);
            if id[i] == ':' {
                assert(digits.contains(':'));
                text::lemma_decimal_digits(now as nat, ':');
            }
        }
    }
    assert(id[k] == ':');
    text::lemma_find_at(id, ':', k);
    assert(id.subrange(k + 1, id.len() as int) =~= text::decimal(n as nat));
}

/// Every pending job bears the id of a number below the next one, and no two
/// bear the same.
pub open spec fn ids_fresh(q: QueueView) -> bool {
    &&& forall|i: int| 0 <= i < q.pending.len() ==> issued_before(#[trigger] q.pending[i].id, q.issued)
    &&& forall|i: int, j: int|
        0 <= i < j < q.pending.len() ==> #[trigger] q.pending[i].id != #[trigger] q.pending[j].id
}

/// `id` is the id of a number below `n`.
pub open spec fn issued_before(id: Seq<char>, n: u64) -> bool {
    exists|now: u64, m: u64| m < n && id == #[trigger] queue::job_id(now, m)
}

/// Queued jobs have ids of their own: a new one differs from every pending one,
/// as long as the numbers last.
pub proof fn law_ids_stay_fresh(
    q: QueueView,
    target: Seq<char>,
    url: Seq<char>,
    allow: Seq<Seq<char>>,
    kind: JobKind,
    now: u64,
)
    requires
        ids_fresh(q),
        q.issued < u64::MAX,
    ensures
        ids_fresh(queue::enqueued(q, queue::new_job(q, target, url, allow, kind, now))),
{
    let job = queue::new_job(q, target, url, allow, kind, now);
    let after = queue::enqueued(q, job);
    assert forall|i: int| 0 <= i < after.pending.len() implies issued_before(
        #[trigger] after.pending[i].id,
        after.issued,
    ) by {
        if i < q.pending.len() {
            assert(after.pending[i] == q.pending[i]);
            assert(issued_before(q.pending[i].id, q.issued));
            let (t, m) = choose|t: u64, m: u64|
                m < q.issued && q.pending[i].id == #[trigger] queue::job_id(t, m);
            assert(m < after.issued && after.pending[i].id == queue::job_id(t, m));
        } else {
            assert(q.issued < after.issued && after.pending[i].id == queue::job_id(now, q.issued));
        }
    }
    assert forall|i: int, j: int| 0 <= i < j < after.pending.len() implies #[trigger] after.pending[i].id
        != #[trigger] after.pending[j].id by {
        assert(after.pending[i] == q.pending[i]);
        if j == q.pending.len() {
            assert(issued_before(q.pending[i].id, q.issued));
            let (t, m) = choose|t: u64, m: u64|
                m < q.issued && q.pending[i].id == #[trigger] queue::job_id(t, m);
            law_job_ids_differ(t, now, m, q.issued);
        } else {
            assert(after.pending[j] == q.pending[j]);
        }
    }
}

/// Cancelling by id takes that job and no other.
pub proof fn law_cancel_takes_its_job(q: QueueView, i: int)
    requires
        ids_fresh(q),
        0 <= i < q.pending.len(),
    ensures
        queue::first_with_id(q.pending, q.pending[i].id) == i,
{
    assert forall|k: int| 0 <= k < i implies (#[trigger] q.pending[k]).id != q.pending[i].id by {
        assert(q.pending[k].id != q.pending[i].id);
    }
    queue::lemma_first_with_id_at(q.pending, q.pending[i].id, i);
}

/// Clearing leaves nothing pending, and the history begins with the cancelled
/// jobs, newest first.
pub proof fn law_clear_cancels_all(q: QueueView, now: u64)
    requires
        queue::sound(q),
    ensures
        queue::cleared(q, now).pending.len() == 0,
        queue::cleared(q, now).recent == queue::cut(
            q.pending.map_values(|j: JobView| queue::cancelled_job(j, now)).reverse() + q.recent,
        ),
{
    lemma_all_remembered(q.recent, q.pending, now);
}

proof fn lemma_all_remembered(recent: Seq<JobView>, jobs: Seq<JobView>, now: u64)
    requires
        recent.len() <= queue::HISTORY_CAP,
    ensures
        queue::all_remembered(recent, jobs, now) == queue::cut(
            jobs.map_values(|j: JobView| queue::cancelled_job(j, now)).reverse() + recent,
        ),
    decreases jobs.len(),
{
    let f = |j: JobView| queue::cancelled_job(j, now);
    if jobs.len() == 0 {
        assert(jobs.map_values(f).reverse() + recent =~= recent);
    } else {
        let init = jobs.drop_last();
        let last = queue::cancelled_job(jobs.last(), now);
        lemma_all_remembered(recent, init, now);
        let whole = init.map_values(f).reverse() + recent;
        assert(jobs.map_values(f).reverse() + recent =~= seq![last] + whole);
        assert(queue::cut(seq![last] + queue::cut(whole)) =~= queue::cut(seq![last] + whole));
    }
}

/// A call that changes the queue.
pub enum Call {
    Manual { target: Seq<char>, url: Seq<char>, allow: Seq<Seq<char>>, now: u64 },
    Scheduled { target: Seq<char>, url: Seq<char>, allow: Seq<Seq<char>>, now: u64 },
    Pause,
    Resume,
    Freeze,
    Unfreeze,
    Pop { now: u64 },
    Complete {
        job: JobView,
        status: ScrapeStatus,
        samples: usize,
        dropped: usize,
        error: Option<Seq<char>>,
        now: u64,
    },
    Cancel { id: Seq<char>, now: u64 },
    Clear { now: u64 },
}

/// The queue with `job` behind the others, where it has room.
pub open spec fn taken(q: QueueView, job: JobView) -> QueueView {
    if q.pending.len() < q.cap {
        queue::enqueued(q, job)
    } else {
        q
    }
}

/// The queue after a call.
pub open spec fn after(q: QueueView, call: Call) -> QueueView {
    match call {
        Call::Manual { target, url, allow, now } => taken(
            q,
            queue::new_job(q, target, url, allow, JobKind::Manual, now),
        ),
        Call::Scheduled { target, url, allow, now } => if queue::already_scheduled(q, target) {
            q
        } else {
            taken(q, queue::new_job(q, target, url, allow, JobKind::Scheduled, now))
        },
        Call::Pause => QueueView { paused: true, ..q },
        Call::Resume => QueueView { paused: false, ..q },
        Call::Freeze => QueueView { frozen: true, ..q },
        Call::Unfreeze => QueueView { frozen: false, ..q },
        Call::Pop { now } => match queue::next_index(q) {
            Some(i) => queue::popped(q, i, now),
            None => q,
        },
        Call::Complete { job, status, samples, dropped, error, now } => queue::completed(
            q,
            job,
            status,
            samples,
            dropped,
            error,
            now,
        ),
        Call::Cancel { id, now } => {
            let i = queue::first_with_id(q.pending, id) as int;
            if i < q.pending.len() {
                queue::cancelled(q, i, now)
            } else {
                q
            }
        },
        Call::Clear { now } => queue::cleared(q, now),
    }
}

/// The queue after a sequence of calls.
pub open spec fn after_all(q: QueueView, calls: Seq<Call>) -> QueueView
    decreases calls.len(),
{
    if calls.len() == 0 {
        q
    } else {
        after(after_all(q, calls.drop_last()), calls.last())
    }
}

/// What the queue's methods say of the state they leave is what [`after`] says
/// of their calls.
pub proof fn law_calls(
    before: QueueView,
    then: QueueView,
    target: Seq<char>,
    url: Seq<char>,
    allow: Seq<Seq<char>>,
    id: Seq<char>,
    now: u64,
    r: Result<JobView, QueueError>,
    maybe: Result<Option<JobView>, QueueError>,
    popped: Option<JobView>,
)
    ensures
        queue::takes(
            before,
            then,
            r,
            queue::new_job(before, target, url, allow, JobKind::Manual, now),
        ) ==> then == after(before, Call::Manual { target, url, allow, now }),
        queue::takes_once(
            before,
            then,
            maybe,
            queue::new_job(before, target, url, allow, JobKind::Scheduled, now),
        ) ==> then == after(before, Call::Scheduled { target, url, allow, now }),
        queue::hands_out(before, then, popped, now) ==> then == after(before, Call::Pop { now }),
        queue::cancels(before, then, r, id, now) ==> then == after(
            before,
            Call::Cancel { id, now },
        ),
{
}

/// Freezing and unfreezing change the freeze and nothing else: not the pause,
/// and no job.
pub proof fn law_freeze_alone(q: QueueView)
    ensures
        after(q, Call::Freeze) == (QueueView { frozen: true, ..q }),
        after(q, Call::Unfreeze) == (QueueView { frozen: false, ..q }),
        after(after(q, Call::Freeze), Call::Unfreeze) == (QueueView { frozen: false, ..q }),
{
}

/// A freeze lasts until it is lifted: after any calls but unfreezing the queue
/// is still frozen, and asking for a job gives none and changes nothing.
pub proof fn law_frozen_until_unfrozen(q: QueueView, calls: Seq<Call>, now: u64)
    requires
        q.frozen,
        forall|i: int| 0 <= i < calls.len() ==> !(#[trigger] calls[i] is Unfreeze),
    ensures
        after_all(q, calls).frozen,
        queue::next_index(after_all(q, calls)) is None,
        after(after_all(q, calls), Call::Pop { now }) == after_all(q, calls),
    decreases calls.len(),
{
    if calls.len() > 0 {
        let init = calls.drop_last();
        assert forall|i: int| 0 <= i < init.len() implies !(#[trigger] init[i] is Unfreeze) by {
            assert(init[i] == calls[i]);
        }
        law_frozen_until_unfrozen(q, init, now);
        assert(!(calls[calls.len() - 1] is Unfreeze));
    }
}

proof fn lemma_remembered_ended(recent: Seq<JobView>, job: JobView)
    requires
        queue::all_ended(recent),
        queue::ended(job),
    ensures
        queue::all_ended(queue::remembered(recent, job)),
        queue::remembered(recent, job).len() <= queue::HISTORY_CAP,
{
    let all = queue::remembered(recent, job);
    assert forall|i: int| 0 <= i < all.len() implies queue::ended(#[trigger] all[i]) by {
        if i > 0 {
            assert(all[i] == recent[i - 1]);
        }
    }
}

proof fn lemma_all_remembered_ended(recent: Seq<JobView>, jobs: Seq<JobView>, now: u64)
    requires
        queue::all_ended(recent),
        recent.len() <= queue::HISTORY_CAP,
    ensures
        queue::all_ended(queue::all_remembered(recent, jobs, now)),
        queue::all_remembered(recent, jobs, now).len() <= queue::HISTORY_CAP,
    decreases jobs.len(),
{
    if jobs.len() > 0 {
        lemma_all_remembered_ended(recent, jobs.drop_last(), now);
        lemma_remembered_ended(
            queue::all_remembered(recent, jobs.drop_last(), now),
            queue::cancelled_job(jobs.last(), now),
        );
    }
}

proof fn lemma_taken_sound(q: QueueView, job: JobView)
    requires
        queue::sound(q),
        job.state == queue::JobState::Pending,
        job.started_at is None,
        job.finished_at is None,
        job.kind == JobKind::Scheduled ==> !queue::already_scheduled(q, job.target),
    ensures
        queue::sound(taken(q, job)),
{
    let t = taken(q, job);
    if q.pending.len() < q.cap {
        assert forall|i: int, j: int|
            0 <= i < j < t.pending.len() && (#[trigger] t.pending[i]).kind == JobKind::Scheduled && (
            #[trigger] t.pending[j]).kind == JobKind::Scheduled implies t.pending[i].target
            != t.pending[j].target by {
            assert(t.pending[i] == q.pending[i]);
            if j == q.pending.len() {
                if q.pending[i].target == job.target {
                    assert(queue::sweeps(q.pending[i], job.target));
                }
            } else {
                assert(t.pending[j] == q.pending[j]);
            }
        }
        assert forall|i: int|
            0 <= i < t.pending.len() && t.running is Some && (#[trigger] t.pending[i]).kind
                == JobKind::Scheduled implies !queue::sweeps(t.running->0, t.pending[i].target) by {
            if i < q.pending.len() {
                assert(t.pending[i] == q.pending[i]);
            }
        }
        assert forall|i: int| 0 <= i < t.pending.len() implies (#[trigger] t.pending[i]).state
            == queue::JobState::Pending && t.pending[i].started_at is None
            && t.pending[i].finished_at is None by {
            if i < q.pending.len() {
                assert(t.pending[i] == q.pending[i]);
            }
        }
    }
}

proof fn lemma_after_sound(q: QueueView, call: Call)
    requires
        queue::sound(q),
    ensures
        queue::sound(after(q, call)),
        after(q, call).cap == q.cap,
{
    match call {
        Call::Manual { target, url, allow, now } => {
            lemma_taken_sound(q, queue::new_job(q, target, url, allow, JobKind::Manual, now));
        },
        Call::Scheduled { target, url, allow, now } => {
            if !queue::already_scheduled(q, target) {
                lemma_taken_sound(
                    q,
                    queue::new_job(q, target, url, allow, JobKind::Scheduled, now),
                );
            }
        },
        Call::Pop { now } => {
            lemma_first_of(q.pending, JobKind::Manual);
            lemma_first_of(q.pending, JobKind::Scheduled);
            match queue::next_index(q) {
                Some(i) => {
                    queue::lemma_popped_sound(q, i, now);
                },
                None => {},
            }
        },
        Call::Complete { job, status, samples, dropped, error, now } => {
            lemma_remembered_ended(
                q.recent,
                queue::finished(job, status, samples, dropped, error, now),
            );
        },
        Call::Cancel { id, now } => {
            let i = queue::first_with_id(q.pending, id) as int;
            if i < q.pending.len() {
                queue::lemma_removed_sound(q.pending, i, q);
                lemma_remembered_ended(q.recent, queue::cancelled_job(q.pending[i], now));
            }
        },
        Call::Clear { now } => {
            lemma_all_remembered_ended(q.recent, q.pending, now);
        },
        _ => {},
    }
}

proof fn lemma_fresh_part(q: QueueView, then: QueueView)
    requires
        ids_fresh(q),
        then.issued == q.issued,
        forall|i: int|
            0 <= i < then.pending.len() ==> q.pending.contains(#[trigger] then.pending[i]),
        forall|i: int, j: int|
            0 <= i < j < then.pending.len() ==> #[trigger] then.pending[i].id
                != #[trigger] then.pending[j].id,
    ensures
        ids_fresh(then),
{
    assert forall|i: int| 0 <= i < then.pending.len() implies issued_before(
        #[trigger] then.pending[i].id,
        then.issued,
    ) by {
        assert(q.pending.contains(then.pending[i]));
        let k = choose|k: int| 0 <= k < q.pending.len() && q.pending[k] == then.pending[i];
        assert(issued_before(q.pending[k].id, q.issued));
    }
}

proof fn lemma_fresh_removed(q: QueueView, i: int, then: QueueView)
    requires
        ids_fresh(q),
        0 <= i < q.pending.len(),
        then.pending == q.pending.remove(i),
        then.issued == q.issued,
    ensures
        ids_fresh(then),
{
    let rest = then.pending;
    assert forall|k: int| 0 <= k < rest.len() implies q.pending.contains(#[trigger] rest[k]) by {
        assert(rest[k] == q.pending[if k < i {
            k
        } else {
            k + 1
        }]);
    }
    assert forall|a: int, b: int| 0 <= a < b < rest.len() implies #[trigger] rest[a].id
        != #[trigger] rest[b].id by {
        let x = if a < i {
            a
        } else {
            a + 1
        };
        let y = if b < i {
            b
        } else {
            b + 1
        };
        assert(rest[a] == q.pending[x] && rest[b] == q.pending[y]);
        assert(q.pending[x].id != q.pending[y].id);
    }
    lemma_fresh_part(q, then);
}

/// Every call leaves the pending ids distinct, as long as the numbers last.
pub proof fn law_ids_fresh_after(q: QueueView, call: Call)
    requires
        ids_fresh(q),
        q.issued < u64::MAX,
    ensures
        ids_fresh(after(q, call)),
        q.issued <= after(q, call).issued <= q.issued + 1,
{
    match call {
        Call::Manual { target, url, allow, now } => {
            law_ids_stay_fresh(q, target, url, allow, JobKind::Manual, now);
        },
        Call::Scheduled { target, url, allow, now } => {
            law_ids_stay_fresh(q, target, url, allow, JobKind::Scheduled, now);
        },
        Call::Pop { now } => {
            lemma_first_of(q.pending, JobKind::Manual);
            lemma_first_of(q.pending, JobKind::Scheduled);
            match queue::next_index(q) {
                Some(i) => {
                    lemma_fresh_removed(q, i, after(q, call));
                },
                None => {},
            }
        },
        Call::Cancel { id, now } => {
            let i = queue::first_with_id(q.pending, id) as int;
            if i < q.pending.len() {
                lemma_fresh_removed(q, i, after(q, call));
            }
        },
        Call::Clear { now } => {},
        _ => {
            assert(after(q, call).pending == q.pending);
        },
    }
}

/// Every state of a queue keeps the promises: from a new queue on, after any
/// sequence of calls, the queue is sound and its capacity is unchanged; and the
/// pending ids are distinct, as long as the numbers last.
pub proof fn law_every_state(q: QueueView, calls: Seq<Call>)
    requires
        queue::sound(q),
        ids_fresh(q),
    ensures
        queue::sound(after_all(q, calls)),
        after_all(q, calls).cap == q.cap,
        q.issued + calls.len() <= u64::MAX ==> ids_fresh(after_all(q, calls))
            && after_all(q, calls).issued <= q.issued + calls.len(),
    decreases calls.len(),
{
    if calls.len() > 0 {
        let init = calls.drop_last();
        law_every_state(q, init);
        let here = after_all(q, init);
        lemma_after_sound(here, calls.last());
        if q.issued + calls.len() <= u64::MAX {
            law_ids_fresh_after(here, calls.last());
        }
    }
}

/// A queue without pending jobs has distinct ids: a new one above all.
pub proof fn law_new_ids_fresh(q: QueueView)
    requires
        q.pending.len() == 0,
    ensures
        ids_fresh(q),
{
}

/// The history shows what ended last first.
pub proof fn law_history_newest_first(
    q: QueueView,
    job: JobView,
    status: ScrapeStatus,
    samples: usize,
    dropped: usize,
    error: Option<Seq<char>>,
    id: Seq<char>,
    now: u64,
)
    ensures
        after(q, Call::Complete { job, status, samples, dropped, error, now }).recent[0]
            == queue::finished(job, status, samples, dropped, error, now),
        queue::first_with_id(q.pending, id) < q.pending.len() ==> after(
            q,
            Call::Cancel { id, now },
        ).recent[0] == queue::cancelled_job(
            q.pending[queue::first_with_id(q.pending, id) as int],
            now,
        ),
{
}

/// A request to queue a job is granted exactly where the queue has room. Then the
/// job stands behind the others, with the target, URL, prefixes and kind that
/// were asked for, not begun, under an id of the time and the next number; and
/// nothing else changes but the number. Else nothing changes at all.
pub proof fn law_queued(
    before: QueueView,
    after: QueueView,
    r: Result<JobView, QueueError>,
    target: Seq<char>,
    url: Seq<char>,
    allow: Seq<Seq<char>>,
    kind: JobKind,
    now: u64,
)
    requires
        queue::takes(
            before,
            after,
            r,
            queue::new_job(before, target, url, allow, kind, now),
        ),
    ensures
        r is Ok <==> before.pending.len() < before.cap,
        r is Err ==> r->Err_0 == QueueError::Full(before.cap) && after == before,
        r is Ok ==> r->Ok_0.target == target && r->Ok_0.url == url && r->Ok_0.allow == allow
            && r->Ok_0.kind == kind,
        r is Ok ==> r->Ok_0.state == JobState::Pending && r->Ok_0.enqueued_at == now
            && r->Ok_0.started_at is None && r->Ok_0.finished_at is None && r->Ok_0.samples == 0
            && r->Ok_0.dropped == 0 && r->Ok_0.error is None,
        r is Ok ==> r->Ok_0.id == "j"@ + text::decimal(now as nat) + (":"@ + text::decimal(
            before.issued as nat,
        )),
        r is Ok ==> after.pending == before.pending.push(r->Ok_0) && after.running == before.running
            && after.recent == before.recent && after.done == before.done && after.failed
            == before.failed && after.paused == before.paused && after.frozen == before.frozen
            && after.cap == before.cap,
        r is Ok && before.issued < u64::MAX ==> after.issued == before.issued + 1,
{
}

/// A sweep's request changes nothing exactly where a scheduled job for the target
/// is pending or running; else it is a request like any other, for a scheduled
/// job.
pub proof fn law_queued_once(
    before: QueueView,
    after: QueueView,
    r: Result<Option<JobView>, QueueError>,
    target: Seq<char>,
    url: Seq<char>,
    allow: Seq<Seq<char>>,
    now: u64,
)
    requires
        queue::takes_once(
            before,
            after,
            r,
            queue::new_job(before, target, url, allow, JobKind::Scheduled, now),
        ),
    ensures
        r == Ok::<_, QueueError>(None::<JobView>) <==> (exists|i: int|
            0 <= i < before.pending.len() && (#[trigger] before.pending[i]).kind
                == JobKind::Scheduled && before.pending[i].target == target) || (before.running
            is Some && before.running->0.kind == JobKind::Scheduled && before.running->0.target
            == target),
        r == Ok::<_, QueueError>(None::<JobView>) ==> after == before,
        r is Err ==> r->Err_0 == QueueError::Full(before.cap) && after == before
            && before.pending.len() >= before.cap,
        r matches Ok(Some(j)) ==> j.target == target && j.url == url && j.allow == allow && j.kind
            == JobKind::Scheduled && after.pending == before.pending.push(j) && after.running
            == before.running && after.recent == before.recent,
{
    if queue::already_scheduled(before, target) {
        if exists|i: int|
            0 <= i < before.pending.len() && queue::sweeps(#[trigger] before.pending[i], target) {
            let i = choose|i: int|
                0 <= i < before.pending.len() && queue::sweeps(#[trigger] before.pending[i], target);
            assert(before.pending[i].kind == JobKind::Scheduled);
        }
    }
    if exists|i: int|
        0 <= i < before.pending.len() && (#[trigger] before.pending[i]).kind == JobKind::Scheduled
            && before.pending[i].target == target {
        let i = choose|i: int|
            0 <= i < before.pending.len() && (#[trigger] before.pending[i]).kind
                == JobKind::Scheduled && before.pending[i].target == target;
        assert(queue::sweeps(before.pending[i], target));
    }
}

/// Handing out a job changes its state and its start time and nothing else: the
/// job that runs is one of the pending ones as it was queued, it leaves them, and
/// the rest of the queue stays as it is.
pub proof fn law_handed_out(before: QueueView, after: QueueView, r: Option<JobView>, now: u64)
    requires
        queue::hands_out(before, after, r, now),
    ensures
        r is None ==> after == before,
        r is Some ==> after.running == r && after.recent == before.recent && after.done
            == before.done && after.failed == before.failed && after.paused == before.paused
            && after.frozen == before.frozen && after.cap == before.cap && after.issued
            == before.issued,
        r is Some ==> exists|i: int|
            {
                &&& 0 <= i < before.pending.len()
                &&& after.pending == before.pending.remove(i)
                &&& r->0.id == (#[trigger] before.pending[i]).id
                &&& r->0.target == before.pending[i].target
                &&& r->0.url == before.pending[i].url
                &&& r->0.allow == before.pending[i].allow
                &&& r->0.kind == before.pending[i].kind
                &&& r->0.enqueued_at == before.pending[i].enqueued_at
                &&& r->0.finished_at == before.pending[i].finished_at
                &&& r->0.samples == before.pending[i].samples
                &&& r->0.dropped == before.pending[i].dropped
                &&& r->0.error == before.pending[i].error
                &&& r->0.state == JobState::Running
                &&& r->0.started_at == Some(now)
                &&& forall|k: int|
                    0 <= k < i ==> (#[trigger] before.pending[k]).kind != before.pending[i].kind
            },
{
    lemma_first_of(before.pending, JobKind::Manual);
    lemma_first_of(before.pending, JobKind::Scheduled);
    if r is Some {
        let i = queue::next_index(before)->0;
        assert(r->0.id == before.pending[i].id);
    }
}

/// Which kind is handed out: nothing while frozen; a manual job where one waits
/// and the queue is not paused; else a scheduled one, where one waits.
pub proof fn law_kind_handed_out(before: QueueView, after: QueueView, r: Option<JobView>, now: u64)
    requires
        queue::hands_out(before, after, r, now),
    ensures
        before.frozen ==> r is None,
        !before.frozen && !before.paused && (exists|i: int|
            0 <= i < before.pending.len() && (#[trigger] before.pending[i]).kind == JobKind::Manual)
            ==> r is Some && r->0.kind == JobKind::Manual,
        !before.frozen && (before.paused || !(exists|i: int|
            0 <= i < before.pending.len() && (#[trigger] before.pending[i]).kind
                == JobKind::Manual)) && (exists|i: int|
            0 <= i < before.pending.len() && (#[trigger] before.pending[i]).kind
                == JobKind::Scheduled) ==> r is Some && r->0.kind == JobKind::Scheduled,
        r is Some && r->0.kind == JobKind::Manual ==> !before.paused,
{
    lemma_first_of(before.pending, JobKind::Manual);
    lemma_first_of(before.pending, JobKind::Scheduled);
    let m = queue::first_of(before.pending, JobKind::Manual) as int;
    let s = queue::first_of(before.pending, JobKind::Scheduled) as int;
    if m < before.pending.len() {
        assert(before.pending[m].kind == JobKind::Manual);
    }
    if s < before.pending.len() {
        assert(before.pending[s].kind == JobKind::Scheduled);
    }
}

/// What is queued is handed out as it was queued: the job that an empty queue
/// takes in and hands out next bears the target, URL and prefixes asked for.
pub proof fn law_queue_then_hand_out(
    q: QueueView,
    queued: QueueView,
    after: QueueView,
    r: Result<JobView, QueueError>,
    out: Option<JobView>,
    target: Seq<char>,
    url: Seq<char>,
    allow: Seq<Seq<char>>,
    kind: JobKind,
    now: u64,
    later: u64,
)
    requires
        q.pending.len() == 0,
        q.cap > 0,
        !q.frozen,
        kind == JobKind::Manual ==> !q.paused,
        queue::takes(q, queued, r, queue::new_job(q, target, url, allow, kind, now)),
        queue::hands_out(queued, after, out, later),
    ensures
        out is Some,
        out->0.target == target,
        out->0.url == url,
        out->0.allow == allow,
        out->0.kind == kind,
        out->0.enqueued_at == now,
        after.pending.len() == 0,
{
    law_queued(q, queued, r, target, url, allow, kind, now);
    assert(queued.pending[0].kind == kind);
    law_kind_handed_out(queued, after, out, later);
    law_handed_out(queued, after, out, later);
}

/// A finished job goes in front of the history, as it was but for its end: done
/// after a success, failed after anything else, with the figures that were
/// handed in. One counter goes up, nothing runs any more, and the pending jobs
/// stay.
pub proof fn law_completed(
    q: QueueView,
    job: JobView,
    status: ScrapeStatus,
    samples: usize,
    dropped: usize,
    error: Option<Seq<char>>,
    now: u64,
    k: int,
)
    ensures
        ({
            let a = queue::completed(q, job, status, samples, dropped, error, now);
            let j = a.recent[0];
            &&& a.recent.len() > 0
            &&& j.id == job.id && j.target == job.target && j.url == job.url && j.allow == job.allow
            &&& j.kind == job.kind && j.enqueued_at == job.enqueued_at && j.started_at
                == job.started_at
            &&& j.samples == samples && j.dropped == dropped && j.error == error
            &&& j.finished_at == Some(now)
            &&& status == ScrapeStatus::Success ==> j.state == JobState::Done && a.failed
                == q.failed
            &&& status != ScrapeStatus::Success ==> j.state == JobState::Failed && a.done == q.done
            &&& status == ScrapeStatus::Success && q.done < u64::MAX ==> a.done == q.done + 1
            &&& status != ScrapeStatus::Success && q.failed < u64::MAX ==> a.failed == q.failed + 1
            &&& a.running is None && a.pending == q.pending && a.paused == q.paused && a.frozen
                == q.frozen && a.cap == q.cap && a.issued == q.issued
            &&& q.recent.len() < 100 ==> a.recent.len() == q.recent.len() + 1
            &&& q.recent.len() >= 100 ==> a.recent.len() == 100
            &&& 0 < k < a.recent.len() ==> a.recent[k] == q.recent[k - 1]
        }),
{
}

/// Cancelling by id finds the first pending job with that id: it leaves for the
/// front of the history as it was, but cancelled and ended. Where there is none
/// the error names the id and nothing changes.
pub proof fn law_cancelled(
    before: QueueView,
    after: QueueView,
    r: Result<JobView, QueueError>,
    id: Seq<char>,
    now: u64,
)
    requires
        queue::cancels(before, after, r, id, now),
    ensures
        r is Ok <==> exists|i: int|
            0 <= i < before.pending.len() && (#[trigger] before.pending[i]).id == id,
        r is Err ==> after == before && r->Err_0 is NotFound && r->Err_0->NotFound_0@ == id,
        r is Ok ==> after.recent.len() > 0 && after.recent[0] == r->Ok_0 && after.running
            == before.running && after.done == before.done && after.failed == before.failed
            && after.paused == before.paused && after.frozen == before.frozen && after.issued
            == before.issued && after.cap == before.cap,
        r is Ok ==> exists|i: int|
            {
                &&& 0 <= i < before.pending.len()
                &&& after.pending == before.pending.remove(i)
                &&& (#[trigger] before.pending[i]).id == id
                &&& r->Ok_0.id == id
                &&& r->Ok_0.target == before.pending[i].target
                &&& r->Ok_0.url == before.pending[i].url
                &&& r->Ok_0.allow == before.pending[i].allow
                &&& r->Ok_0.kind == before.pending[i].kind
                &&& r->Ok_0.enqueued_at == before.pending[i].enqueued_at
                &&& r->Ok_0.started_at == before.pending[i].started_at
                &&& r->Ok_0.samples == before.pending[i].samples
                &&& r->Ok_0.dropped == before.pending[i].dropped
                &&& r->Ok_0.error == before.pending[i].error
                &&& r->Ok_0.state == JobState::Cancelled
                &&& r->Ok_0.finished_at == Some(now)
                &&& forall|k: int| 0 <= k < i ==> (#[trigger] before.pending[k]).id != id
            },
{
    lemma_first_with_id(before.pending, id);
    let i = queue::first_with_id(before.pending, id) as int;
    if i < before.pending.len() {
        assert(before.pending[i].id == id);
    }
}

proof fn lemma_first_with_id(jobs: Seq<JobView>, id: Seq<char>)
    ensures
        queue::first_with_id(jobs, id) <= jobs.len(),
        forall|k: int| 0 <= k < queue::first_with_id(jobs, id) ==> (#[trigger] jobs[k]).id != id,
        queue::first_with_id(jobs, id) < jobs.len() ==> jobs[queue::first_with_id(
            jobs,
            id,
        ) as int].id == id,
    decreases jobs.len(),
{
    if jobs.len() > 0 && jobs[0].id != id {
        let rest = jobs.subrange(1, jobs.len() as int);
        lemma_first_with_id(rest, id);
        assert forall|k: int| 0 <= k < queue::first_with_id(jobs, id) implies (
        #[trigger] jobs[k]).id != id by {
            if k > 0 {
                assert(rest[k - 1] == jobs[k]);
            }
        }
    }
}

/// Clearing cancels every pending job: the last one stands first in the history,
/// each as it was but cancelled and ended, and what was there before follows, as
/// far as the history reaches.
pub proof fn law_cleared(q: QueueView, now: u64, k: int)
    requires
        queue::sound(q),
        0 <= k,
    ensures
        ({
            let a = queue::cleared(q, now);
            let n = q.pending.len() as int;
            &&& a.pending.len() == 0 && a.running == q.running && a.done == q.done && a.failed
                == q.failed && a.paused == q.paused && a.frozen == q.frozen && a.cap == q.cap
                && a.issued == q.issued
            &&& n + q.recent.len() <= 100 ==> a.recent.len() == n + q.recent.len()
            &&& n + q.recent.len() > 100 ==> a.recent.len() == 100
            &&& k < n && k < a.recent.len() ==> a.recent[k].id == q.pending[n - 1 - k].id
                && a.recent[k].target == q.pending[n - 1 - k].target && a.recent[k].url
                == q.pending[n - 1 - k].url && a.recent[k].allow == q.pending[n - 1 - k].allow
                && a.recent[k].kind == q.pending[n - 1 - k].kind && a.recent[k].state
                == JobState::Cancelled && a.recent[k].finished_at == Some(now)
            &&& n <= k < a.recent.len() ==> a.recent[k] == q.recent[k - n]
        }),
{
    law_clear_cancels_all(q, now);
}

/// A job is what its fields say.
pub proof fn law_job_view(j: Job)
    ensures
        j.deep_view().id == j.id@,
        j.deep_view().target == j.target@,
        j.deep_view().url == j.url@,
        j.deep_view().kind == j.kind,
        j.deep_view().state == j.state,
        j.deep_view().enqueued_at == j.enqueued_at,
        j.deep_view().started_at == j.started_at,
        j.deep_view().finished_at == j.finished_at,
        j.deep_view().samples == j.samples,
        j.deep_view().dropped == j.dropped,
        j.error is Some ==> j.deep_view().error == Some(j.error->0@),
        j.error is None ==> j.deep_view().error is None,
        j.deep_view().allow.len() == j.allow@.len(),
        forall|i: int| 0 <= i < j.allow@.len() ==> #[trigger] j.deep_view().allow[i] == j.allow@[i]@,
{
}

}
