//! Collector status snapshot for `GET /api/v1/status`.
//!
//! The worker records the outcome of every scrape attempt; the snapshot tells
//! the collector's health without parsing `/metrics` text.
use vstd::prelude::*;
use vstd::string::*;
use crate::clock;
use crate::config::{TargetConfig, TargetConfigView};
use crate::numbers;
use crate::query::RecentBuffer;
use crate::queue::{JobQueue, QueueView};
use crate::scrape;
use crate::scrape::ScrapeStatus;
use crate::text;

verus! {

/// Overall collector health: all targets healthy.
pub const STATUS_OK: &'static str = "ok";

/// Overall collector health: at least one target failing.
pub const STATUS_DEGRADED: &'static str = "degraded";

/// No failing target, and one that has not been scraped yet (startup window).
pub const STATUS_STARTING: &'static str = "starting";

/// Current time, whole seconds since the Unix epoch (0 on clock skew).
#[must_use]
pub fn now_unix() -> u64 {
    clock::now_unix()
}

/// Occupancy of the buffer of recent samples.
#[derive(Debug, Clone, Copy, PartialEq, Eq, Structural)]
pub struct BufferInfo {
    /// Samples currently buffered.
    pub samples: usize,
    /// Buffer capacity.
    pub cap: usize,
}

/// Scrape totals per outcome.
#[derive(Debug, Clone, Copy, PartialEq, Eq, Structural)]
pub struct ScrapeTotals {
    /// Successful scrapes.
    pub ok: u64,
    /// Transport, non-2xx, oversize or non-UTF8 scrapes.
    pub fetch_error: u64,
    /// Unparsable exposition scrapes.
    pub parse_error: u64,
}

impl Default for ScrapeTotals {
    fn default() -> (r: Self)
        ensures
            r == (ScrapeTotals { ok: 0, fetch_error: 0, parse_error: 0 }),
    {
        ScrapeTotals { ok: 0, fetch_error: 0, parse_error: 0 }
    }
}

/// One target's status.
#[derive(Debug, Clone)]
pub struct TargetStatus {
    /// Target slug (`scrape_target` label).
    pub name: String,
    /// `/metrics` URL.
    pub url: String,
    /// Unix seconds of the last attempt (`None` before the first scrape).
    pub last_scrape_ts: Option<u64>,
    /// Outcome of the last attempt (`ok`, `fetch_error` or `parse_error`).
    pub last_status: Option<String>,
    /// Samples stored by the last successful attempt.
    pub last_samples: usize,
    /// Wall time of the last attempt, milliseconds.
    pub last_duration_ms: u64,
    /// Consecutive failed attempts (0 after a success).
    pub consecutive_failures: u64,
    /// Lifetime outcome counts.
    pub totals: ScrapeTotals,
}

/// What a [`TargetStatus`] holds.
#[verifier::ext_equal]
pub struct TargetStatusView {
    pub name: Seq<char>,
    pub url: Seq<char>,
    pub last_scrape_ts: Option<u64>,
    pub last_status: Option<Seq<char>>,
    pub last_samples: usize,
    pub last_duration_ms: u64,
    pub consecutive_failures: u64,
    pub totals: ScrapeTotals,
}

impl DeepView for TargetStatus {
    type V = TargetStatusView;

    open spec fn deep_view(&self) -> TargetStatusView {
        TargetStatusView {
            name: self.name@,
            url: self.url@,
            last_scrape_ts: self.last_scrape_ts,
            last_status: self.last_status.deep_view(),
            last_samples: self.last_samples,
            last_duration_ms: self.last_duration_ms,
            consecutive_failures: self.consecutive_failures,
            totals: self.totals,
        }
    }
}

/// The status of a target that was never scraped.
pub open spec fn unscraped(name: Seq<char>, url: Seq<char>) -> TargetStatusView {
    TargetStatusView {
        name,
        url,
        last_scrape_ts: None,
        last_status: None,
        last_samples: 0,
        last_duration_ms: 0,
        consecutive_failures: 0,
        totals: ScrapeTotals { ok: 0, fetch_error: 0, parse_error: 0 },
    }
}

impl TargetStatus {
    /// The status of a target that was never scraped.
    fn new(name: &str, url: &str) -> (r: Self)
        ensures
            r.deep_view() == unscraped(name@, url@),
    {
        TargetStatus {
            name: name.to_string(),
            url: url.to_string(),
            last_scrape_ts: None,
            last_status: None,
            last_samples: 0,
            last_duration_ms: 0,
            consecutive_failures: 0,
            totals: ScrapeTotals::default(),
        }
    }

    /// A copy of this status.
    pub fn copy(&self) -> (r: Self)
        ensures
            r.deep_view() == self.deep_view(),
    {
        let last_status = match &self.last_status {
            Some(s) => Some(s.clone()),
            None => None,
        };
        TargetStatus {
            name: self.name.clone(),
            url: self.url.clone(),
            last_scrape_ts: self.last_scrape_ts,
            last_status,
            last_samples: self.last_samples,
            last_duration_ms: self.last_duration_ms,
            consecutive_failures: self.consecutive_failures,
            totals: self.totals,
        }
    }
}

/// Full worker status snapshot.
#[derive(Debug, Clone)]
pub struct StatusSnapshot {
    /// `ok`, `degraded` or `starting`.
    pub status: &'static str,
    /// Seconds since collector start.
    pub uptime_secs: u64,
    /// Configured scrape interval.
    pub interval_secs: u64,
    /// Buffer occupancy.
    pub buffer: BufferInfo,
    /// Cold `metrics_cold_*.parquet` files currently on disk.
    pub cold_files: usize,
    /// Hot age after which keys compact to Parquet.
    pub retention_days: u64,
    /// One entry per target, in order.
    pub targets: Vec<TargetStatus>,
}

/// Tracks the outcome of scrape attempts, one entry per target.
#[derive(Debug)]
pub struct StatusTracker {
    interval_secs: u64,
    retention_days: u64,
    started_unix: u64,
    targets: Vec<TargetStatus>,
}

/// What a [`StatusTracker`] holds.
#[verifier::ext_equal]
pub struct TrackerView {
    pub interval_secs: u64,
    pub retention_days: u64,
    pub started_unix: u64,
    pub targets: Seq<TargetStatusView>,
}

impl View for StatusTracker {
    type V = TrackerView;

    closed spec fn view(&self) -> TrackerView {
        TrackerView {
            interval_secs: self.interval_secs,
            retention_days: self.retention_days,
            started_unix: self.started_unix,
            targets: self.targets.deep_view(),
        }
    }
}

/// A tracker of targets that were never scraped.
pub open spec fn fresh(
    targets: Seq<TargetConfigView>,
    interval_secs: u64,
    retention_days: u64,
    now: u64,
) -> TrackerView {
    TrackerView {
        interval_secs,
        retention_days,
        started_unix: now,
        targets: targets.map_values(|t: TargetConfigView| unscraped(t.name, t.url)),
    }
}

/// Where the first target of that name stands, or the number of targets.
pub open spec fn find_name(targets: Seq<TargetStatusView>, name: Seq<char>) -> nat
    decreases targets.len(),
{
    if targets.len() == 0 || targets[0].name == name {
        0
    } else {
        1 + find_name(targets.subrange(1, targets.len() as int), name)
    }
}

/// The target's status after an attempt.
pub open spec fn attempted(
    t: TargetStatusView,
    status: ScrapeStatus,
    samples: usize,
    duration_ms: u64,
    now: u64,
) -> TargetStatusView {
    TargetStatusView {
        last_scrape_ts: Some(now),
        last_status: Some(scrape::status_text(status)),
        last_samples: if status == ScrapeStatus::Success {
            samples
        } else {
            t.last_samples
        },
        last_duration_ms: duration_ms,
        consecutive_failures: if status == ScrapeStatus::Success {
            0
        } else {
            numbers::one_more(t.consecutive_failures)
        },
        totals: match status {
            ScrapeStatus::Success => ScrapeTotals { ok: numbers::one_more(t.totals.ok), ..t.totals },
            ScrapeStatus::FetchError => ScrapeTotals {
                fetch_error: numbers::one_more(t.totals.fetch_error),
                ..t.totals
            },
            ScrapeStatus::ParseError => ScrapeTotals {
                parse_error: numbers::one_more(t.totals.parse_error),
                ..t.totals
            },
        },
        ..t
    }
}

/// The tracker after an attempt on the target of that name; as it was where it
/// has no such target.
pub open spec fn recorded(
    s: TrackerView,
    target: Seq<char>,
    status: ScrapeStatus,
    samples: usize,
    duration_ms: u64,
    now: u64,
) -> TrackerView {
    let i = find_name(s.targets, target) as int;
    if i < s.targets.len() {
        TrackerView {
            targets: s.targets.update(
                i,
                attempted(s.targets[i], status, samples, duration_ms, now),
            ),
            ..s
        }
    } else {
        s
    }
}

/// Some target failed on its last attempts.
pub open spec fn any_failing(targets: Seq<TargetStatusView>) -> bool {
    exists|i: int| 0 <= i < targets.len() && (#[trigger] targets[i]).consecutive_failures > 0
}

/// Some target was never scraped.
pub open spec fn any_unscraped(targets: Seq<TargetStatusView>) -> bool {
    exists|i: int| 0 <= i < targets.len() && (#[trigger] targets[i]).last_scrape_ts is None
}

/// Overall health.
pub open spec fn health(targets: Seq<TargetStatusView>) -> Seq<char> {
    if any_failing(targets) {
        STATUS_DEGRADED@
    } else if any_unscraped(targets) {
        STATUS_STARTING@
    } else {
        STATUS_OK@
    }
}

/// `r` is the snapshot of `s` at the time `now`.
pub open spec fn is_snapshot(
    s: TrackerView,
    r: StatusSnapshot,
    buffer_samples: usize,
    buffer_cap: usize,
    cold_files: usize,
    now: u64,
) -> bool {
    &&& r.status@ == health(s.targets)
    &&& r.uptime_secs == if now >= s.started_unix {
        (now - s.started_unix) as u64
    } else {
        0
    }
    &&& r.interval_secs == s.interval_secs
    &&& r.buffer == BufferInfo { samples: buffer_samples, cap: buffer_cap }
    &&& r.cold_files == cold_files
    &&& r.retention_days == s.retention_days
    &&& r.targets.deep_view() == s.targets
}

proof fn lemma_find_name_at(targets: Seq<TargetStatusView>, name: Seq<char>, i: int)
    requires
        0 <= i <= targets.len(),
        forall|k: int| 0 <= k < i ==> (#[trigger] targets[k]).name != name,
        i < targets.len() ==> targets[i].name == name,
    ensures
        find_name(targets, name) == i,
    decreases targets.len(),
{
    if i > 0 {
        let rest = targets.subrange(1, targets.len() as int);
        assert forall|k: int| 0 <= k < i - 1 implies (#[trigger] rest[k]).name != name by {
            assert(rest[k] == targets[k + 1]);
        }
        assert(targets[0].name != name);
        lemma_find_name_at(rest, name, i - 1);
    }
}

impl StatusTracker {
    /// Build a tracker at the time `now`, one entry per target, in order.
    pub fn new_at(
        targets: &Vec<TargetConfig>,
        interval_secs: u64,
        retention_days: u64,
        now: u64,
    ) -> (r: Self)
        ensures
            r@ == fresh(targets.deep_view(), interval_secs, retention_days, now),
    {
        let mut entries: Vec<TargetStatus> = Vec::new();
        let mut i: usize = 0;
        while i < targets.len()
            invariant
                i <= targets.len(),
                entries.len() == i,
                forall|k: int|
                    0 <= k < i ==> (#[trigger] entries@[k]).deep_view() == unscraped(
                        targets@[k].name@,
                        targets@[k].url@,
                    ),
            decreases targets.len() - i,
        {
            entries.push(TargetStatus::new(targets[i].name.as_str(), targets[i].url.as_str()));
            i = i + 1;
        }
        let r = StatusTracker {
            interval_secs,
            retention_days,
            started_unix: now,
            targets: entries,
        };
        assert(r@.targets =~= fresh(
            targets.deep_view(),
            interval_secs,
            retention_days,
            now,
        ).targets);
        r
    }

    /// Build a tracker with one entry per target, in order.
    #[must_use]
    pub fn new(targets: &Vec<TargetConfig>, interval_secs: u64, retention_days: u64) -> (r: Self)
        ensures
            exists|now: u64|
                r@ == #[trigger] fresh(targets.deep_view(), interval_secs, retention_days, now),
    {
        Self::new_at(targets, interval_secs, retention_days, clock::now_unix())
    }

    /// Where the first target of that name stands, or the number of targets.
    fn position(&self, name: &str) -> (r: usize)
        ensures
            r == find_name(self@.targets, name@),
            r <= self.targets.len(),
    {
        let mut i: usize = 0;
        while i < self.targets.len() && !text::same(self.targets[i].name.as_str(), name)
            invariant
                i <= self.targets.len(),
                forall|k: int| 0 <= k < i ==> (#[trigger] self@.targets[k]).name != name@,
            decreases self.targets.len() - i,
        {
            assert(self@.targets[i as int].name == self.targets@[i as int].name@);
            i = i + 1;
        }
        proof {
            if i < self.targets.len() {
                assert(self@.targets[i as int].name == self.targets@[i as int].name@);
            }
            lemma_find_name_at(self@.targets, name@, i as int);
        }
        i
    }

    /// Record an attempt on `target` that finished at the time `now`.
    pub fn record_at(
        &mut self,
        target: &str,
        status: ScrapeStatus,
        samples: usize,
        duration_ms: u64,
        now: u64,
    )
        ensures
            final(self)@ == recorded(old(self)@, target@, status, samples, duration_ms, now),
    {
        let ghost before = self@;
        let idx: usize = self.position(target);
        if idx == self.targets.len() {
            return;
        }
        let mut entry = self.targets[idx].copy();
        let ghost was = entry.deep_view();
        assert(was == before.targets[idx as int]);
        entry.last_scrape_ts = Some(now);
        entry.last_status = Some(status.as_str().to_string());
        entry.last_duration_ms = duration_ms;
        match status {
            ScrapeStatus::Success => {
                entry.last_samples = samples;
                entry.consecutive_failures = 0;
                entry.totals.ok = entry.totals.ok.saturating_add(1);
            },
            ScrapeStatus::FetchError => {
                entry.consecutive_failures = entry.consecutive_failures.saturating_add(1);
                entry.totals.fetch_error = entry.totals.fetch_error.saturating_add(1);
            },
            ScrapeStatus::ParseError => {
                entry.consecutive_failures = entry.consecutive_failures.saturating_add(1);
                entry.totals.parse_error = entry.totals.parse_error.saturating_add(1);
            },
        }
        let ghost now_is = entry.deep_view();
        assert(now_is =~= attempted(was, status, samples, duration_ms, now));
        self.targets.set(idx, entry);
        assert(self@.targets =~= before.targets.update(idx as int, now_is));
    }

    /// Record one finished scrape attempt for `target`. Unknown names are
    /// ignored.
    pub fn record(&mut self, target: &str, status: ScrapeStatus, samples: usize, duration_ms: u64)
        ensures
            exists|now: u64|
                final(self)@ == #[trigger] recorded(
                    old(self)@,
                    target@,
                    status,
                    samples,
                    duration_ms,
                    now,
                ),
    {
        self.record_at(target, status, samples, duration_ms, clock::now_unix())
    }

    /// Track one more target, behind the others.
    pub fn add_target(&mut self, name: &str, url: &str)
        ensures
            final(self)@ == (TrackerView {
                targets: old(self)@.targets.push(unscraped(name@, url@)),
                ..old(self)@
            }),
    {
        let ghost before = self@;
        self.targets.push(TargetStatus::new(name, url));
        assert(self@.targets =~= before.targets.push(unscraped(name@, url@)));
    }

    /// Stop tracking the target of that name. Unknown names are ignored.
    pub fn remove_target(&mut self, name: &str)
        ensures
            ({
                let i = find_name(old(self)@.targets, name@) as int;
                final(self)@ == if i < old(self)@.targets.len() {
                    TrackerView { targets: old(self)@.targets.remove(i), ..old(self)@ }
                } else {
                    old(self)@
                }
            }),
    {
        let ghost before = self@;
        let idx: usize = self.position(name);
        if idx < self.targets.len() {
            self.targets.remove(idx);
            assert(self@.targets =~= before.targets.remove(idx as int));
        }
    }

    /// Snapshot at the time `now`.
    pub fn snapshot_at(
        &self,
        buffer_samples: usize,
        buffer_cap: usize,
        cold_files: usize,
        now: u64,
    ) -> (r: StatusSnapshot)
        ensures
            is_snapshot(self@, r, buffer_samples, buffer_cap, cold_files, now),
    {
        let mut failing: bool = false;
        let mut unscraped: bool = false;
        let mut targets: Vec<TargetStatus> = Vec::new();
        let mut i: usize = 0;
        let ghost all = self@.targets;
        while i < self.targets.len()
            invariant
                i <= self.targets.len(),
                all == self.targets.deep_view(),
                targets.len() == i,
                forall|k: int| 0 <= k < i ==> (#[trigger] targets@[k]).deep_view() == all[k],
                failing ==> any_failing(all),
                unscraped ==> any_unscraped(all),
                !failing ==> forall|k: int|
                    0 <= k < i ==> (#[trigger] all[k]).consecutive_failures == 0,
                !unscraped ==> forall|k: int|
                    0 <= k < i ==> (#[trigger] all[k]).last_scrape_ts is Some,
            decreases self.targets.len() - i,
        {
            let t = &self.targets[i];
            assert(all[i as int] == t.deep_view());
            if t.consecutive_failures > 0 {
                failing = true;
            }
            if t.last_scrape_ts.is_none() {
                unscraped = true;
            }
            targets.push(t.copy());
            i = i + 1;
        }
        assert(targets.deep_view() =~= all);
        let status: &'static str = if failing {
            STATUS_DEGRADED
        } else if unscraped {
            STATUS_STARTING
        } else {
            STATUS_OK
        };
        StatusSnapshot {
            status,
            uptime_secs: now.saturating_sub(self.started_unix),
            interval_secs: self.interval_secs,
            buffer: BufferInfo { samples: buffer_samples, cap: buffer_cap },
            cold_files,
            retention_days: self.retention_days,
            targets,
        }
    }

    /// Snapshot with the figures the scrape path cannot know (buffer occupancy,
    /// cold-file count).
    #[must_use]
    pub fn snapshot(&self, buffer_samples: usize, buffer_cap: usize, cold_files: usize) -> (r:
        StatusSnapshot)
        ensures
            exists|now: u64| #[trigger]
                is_snapshot(self@, r, buffer_samples, buffer_cap, cold_files, now),
    {
        self.snapshot_at(buffer_samples, buffer_cap, cold_files, clock::now_unix())
    }
}

/// Queue figures of the status report.
#[derive(Debug)]
pub struct QueueInfo {
    /// Number of pending jobs.
    pub depth: usize,
    /// Queue capacity.
    pub cap: usize,
    /// True when manual jobs are held.
    pub paused: bool,
    /// True when nothing runs.
    pub frozen: bool,
    /// Target of the running job, if any.
    pub running: Option<String>,
    /// Lifetime completed job count.
    pub done: u64,
    /// Lifetime failed job count.
    pub failed: u64,
}

/// `info` tells the figures of the queue `q`.
pub open spec fn tells(info: QueueInfo, q: QueueView) -> bool {
    &&& info.depth == q.pending.len()
    &&& info.cap == q.cap
    &&& info.paused == q.paused
    &&& info.frozen == q.frozen
    &&& info.running.deep_view() == match q.running {
        Some(j) => Some(j.target),
        None => None,
    }
    &&& info.done == q.done
    &&& info.failed == q.failed
}

/// The worker's status report at the time `now`: the tracker's snapshot with
/// the buffer's occupancy, and the queue's figures.
pub fn collector_status_at(
    tracker: &StatusTracker,
    buffer: &RecentBuffer,
    queue: &JobQueue,
    cold_files: usize,
    now: u64,
) -> (r: (StatusSnapshot, QueueInfo))
    requires
        buffer.wf(),
    ensures
        is_snapshot(
            tracker@,
            r.0,
            buffer@.len() as usize,
            buffer.capacity() as usize,
            cold_files,
            now,
        ),
        tells(r.1, queue@),
{
    let occupancy: (usize, usize) = buffer.occupancy();
    let q = queue.snapshot();
    let running: Option<String> = match &q.running {
        Some(j) => Some(j.target.clone()),
        None => None,
    };
    let info = QueueInfo {
        depth: q.depth,
        cap: q.cap,
        paused: q.paused,
        frozen: q.frozen,
        running,
        done: q.done,
        failed: q.failed,
    };
    (tracker.snapshot_at(occupancy.0, occupancy.1, cold_files, now), info)
}

/// An attempt is recorded on the target it was made on and on no other; a name
/// that is not tracked changes nothing.
pub proof fn law_record_touches_one(
    s: TrackerView,
    target: Seq<char>,
    status: ScrapeStatus,
    samples: usize,
    duration_ms: u64,
    now: u64,
    k: int,
)
    requires
        0 <= k < s.targets.len(),
    ensures
        recorded(s, target, status, samples, duration_ms, now).targets.len() == s.targets.len(),
        recorded(s, target, status, samples, duration_ms, now).targets[k].name
            == s.targets[k].name,
        s.targets[k].name != target ==> recorded(
            s,
            target,
            status,
            samples,
            duration_ms,
            now,
        ).targets[k] == s.targets[k],
        (forall|i: int| 0 <= i < s.targets.len() ==> (#[trigger] s.targets[i]).name != target)
            ==> recorded(s, target, status, samples, duration_ms, now) == s,
{
    lemma_find_name(s.targets, target);
}

proof fn lemma_find_name(targets: Seq<TargetStatusView>, name: Seq<char>)
    ensures
        find_name(targets, name) <= targets.len(),
        find_name(targets, name) < targets.len() ==> targets[find_name(targets, name) as int].name
            == name,
    decreases targets.len(),
{
    if targets.len() > 0 && targets[0].name != name {
        lemma_find_name(targets.subrange(1, targets.len() as int), name);
    }
}

/// A success ends a streak of failures, a failure makes it longer and leaves
/// what the last success stored, and every attempt is counted once.
pub proof fn law_streaks(
    t: TargetStatusView,
    status: ScrapeStatus,
    samples: usize,
    duration_ms: u64,
    now: u64,
)
    requires
        t.totals.ok < u64::MAX,
        t.totals.fetch_error < u64::MAX,
        t.totals.parse_error < u64::MAX,
        t.consecutive_failures < u64::MAX,
    ensures
        ({
            let n = attempted(t, status, samples, duration_ms, now);
            &&& status == ScrapeStatus::Success <==> n.consecutive_failures == 0
            &&& status != ScrapeStatus::Success ==> n.consecutive_failures
                == t.consecutive_failures + 1
            &&& n.totals.ok + n.totals.fetch_error + n.totals.parse_error == t.totals.ok
                + t.totals.fetch_error + t.totals.parse_error + 1
            &&& n.last_scrape_ts is Some
            &&& n.last_samples == if status == ScrapeStatus::Success {
                samples
            } else {
                t.last_samples
            }
        }),
{
}

/// Health is `ok` exactly where every target was scraped and none is failing,
/// and `degraded` exactly where one is failing.
pub proof fn law_health(targets: Seq<TargetStatusView>)
    ensures
        health(targets) == STATUS_OK@ <==> (forall|i: int|
            0 <= i < targets.len() ==> (#[trigger] targets[i]).consecutive_failures == 0
                && targets[i].last_scrape_ts is Some),
        health(targets) == STATUS_DEGRADED@ <==> any_failing(targets),
{
    reveal_strlit("ok");
    reveal_strlit("degraded");
    reveal_strlit("starting");
    assert(STATUS_OK@.len() == 2);
    assert(STATUS_DEGRADED@[0] == 'd');
    assert(STATUS_STARTING@[0] == 's');
}

/// An attempt leaves on its target when it was, how it ended and how long it
/// took; name and URL stay. A success tells how many samples it stored, ends the
/// streak of failures and counts as one; a failure keeps the samples of the last
/// success, makes the streak longer and counts under its kind.
pub proof fn law_attempt(
    t: TargetStatusView,
    status: ScrapeStatus,
    samples: usize,
    duration_ms: u64,
    now: u64,
)
    ensures
        ({
            let n = attempted(t, status, samples, duration_ms, now);
            &&& n.name == t.name && n.url == t.url
            &&& n.last_scrape_ts == Some(now) && n.last_duration_ms == duration_ms
            &&& status == ScrapeStatus::Success ==> n.last_status == Some("ok"@) && n.last_samples
                == samples && n.consecutive_failures == 0 && n.totals.fetch_error
                == t.totals.fetch_error && n.totals.parse_error == t.totals.parse_error
            &&& status == ScrapeStatus::Success && t.totals.ok < u64::MAX ==> n.totals.ok
                == t.totals.ok + 1
            &&& status == ScrapeStatus::FetchError ==> n.last_status == Some("fetch_error"@)
                && n.last_samples == t.last_samples && n.totals.ok == t.totals.ok
                && n.totals.parse_error == t.totals.parse_error
            &&& status == ScrapeStatus::FetchError && t.totals.fetch_error < u64::MAX
                ==> n.totals.fetch_error == t.totals.fetch_error + 1
            &&& status == ScrapeStatus::ParseError ==> n.last_status == Some("parse_error"@)
                && n.last_samples == t.last_samples && n.totals.ok == t.totals.ok
                && n.totals.fetch_error == t.totals.fetch_error
            &&& status == ScrapeStatus::ParseError && t.totals.parse_error < u64::MAX
                ==> n.totals.parse_error == t.totals.parse_error + 1
            &&& status != ScrapeStatus::Success && t.consecutive_failures < u64::MAX
                ==> n.consecutive_failures == t.consecutive_failures + 1
        }),
{
}

/// The attempt is recorded on the first target of that name: every other one,
/// and the rest of the tracker, stays.
pub proof fn law_recorded(
    s: TrackerView,
    target: Seq<char>,
    status: ScrapeStatus,
    samples: usize,
    duration_ms: u64,
    now: u64,
    i: int,
)
    requires
        0 <= i < s.targets.len(),
        s.targets[i].name == target,
        forall|k: int| 0 <= k < i ==> (#[trigger] s.targets[k]).name != target,
    ensures
        ({
            let a = recorded(s, target, status, samples, duration_ms, now);
            &&& a.targets.len() == s.targets.len()
            &&& a.targets[i] == attempted(s.targets[i], status, samples, duration_ms, now)
            &&& forall|k: int|
                0 <= k < s.targets.len() && k != i ==> #[trigger] a.targets[k] == s.targets[k]
            &&& a.interval_secs == s.interval_secs && a.retention_days == s.retention_days
                && a.started_unix == s.started_unix
        }),
{
    lemma_find_name_at(s.targets, target, i);
}

/// A new tracker knows every target, in order, as never scraped.
pub proof fn law_fresh(
    targets: Seq<TargetConfigView>,
    interval_secs: u64,
    retention_days: u64,
    now: u64,
    i: int,
)
    ensures
        ({
            let s = fresh(targets, interval_secs, retention_days, now);
            &&& s.interval_secs == interval_secs && s.retention_days == retention_days
                && s.started_unix == now && s.targets.len() == targets.len()
            &&& 0 <= i < targets.len() ==> s.targets[i].name == targets[i].name && s.targets[i].url
                == targets[i].url && s.targets[i].last_scrape_ts is None && s.targets[i].last_status
                is None && s.targets[i].last_samples == 0 && s.targets[i].last_duration_ms == 0
                && s.targets[i].consecutive_failures == 0 && s.targets[i].totals.ok == 0
                && s.targets[i].totals.fetch_error == 0 && s.targets[i].totals.parse_error == 0
        }),
{
}

/// A snapshot tells the figures of the tracker and those handed in, the time
/// since the start, and the health: degraded where a target has failed on its
/// last attempts, else starting where one was never scraped, else ok.
pub proof fn law_snapshot(
    s: TrackerView,
    r: StatusSnapshot,
    buffer_samples: usize,
    buffer_cap: usize,
    cold_files: usize,
    now: u64,
)
    requires
        is_snapshot(s, r, buffer_samples, buffer_cap, cold_files, now),
    ensures
        r.interval_secs == s.interval_secs,
        r.retention_days == s.retention_days,
        r.buffer.samples == buffer_samples,
        r.buffer.cap == buffer_cap,
        r.cold_files == cold_files,
        r.targets@.len() == s.targets.len(),
        forall|i: int|
            0 <= i < s.targets.len() ==> (#[trigger] r.targets@[i]).deep_view() == s.targets[i],
        now >= s.started_unix ==> r.uptime_secs == now - s.started_unix,
        now < s.started_unix ==> r.uptime_secs == 0,
        (exists|i: int|
            0 <= i < s.targets.len() && (#[trigger] s.targets[i]).consecutive_failures > 0)
            ==> r.status@ == "degraded"@,
        !(exists|i: int|
            0 <= i < s.targets.len() && (#[trigger] s.targets[i]).consecutive_failures > 0) && (
        exists|i: int| 0 <= i < s.targets.len() && (#[trigger] s.targets[i]).last_scrape_ts is None)
            ==> r.status@ == "starting"@,
        (forall|i: int|
            0 <= i < s.targets.len() ==> (#[trigger] s.targets[i]).consecutive_failures == 0
                && s.targets[i].last_scrape_ts is Some) ==> r.status@ == "ok"@,
{
    assert(r.targets.deep_view().len() == r.targets@.len());
    assert forall|i: int| 0 <= i < s.targets.len() implies (#[trigger] r.targets@[i]).deep_view()
        == s.targets[i] by {
        assert(r.targets.deep_view()[i] == r.targets@[i].deep_view());
    }
}

/// The queue's figures in the status are the queue's own.
pub proof fn law_tells(info: QueueInfo, q: QueueView)
    requires
        tells(info, q),
    ensures
        info.depth == q.pending.len(),
        info.cap == q.cap,
        info.paused == q.paused,
        info.frozen == q.frozen,
        info.done == q.done,
        info.failed == q.failed,
        q.running is None <==> info.running is None,
        q.running is Some ==> info.running->0@ == q.running->0.target,
{
}

/// A target's status is what its fields say.
pub proof fn law_status_view(t: TargetStatus)
    ensures
        t.deep_view().name == t.name@,
        t.deep_view().url == t.url@,
        t.deep_view().last_scrape_ts == t.last_scrape_ts,
        t.last_status is Some ==> t.deep_view().last_status == Some(t.last_status->0@),
        t.last_status is None ==> t.deep_view().last_status is None,
        t.deep_view().last_samples == t.last_samples,
        t.deep_view().last_duration_ms == t.last_duration_ms,
        t.deep_view().consecutive_failures == t.consecutive_failures,
        t.deep_view().totals == t.totals,
{
}

}
