//! One scrape cycle of a target: accept the body, parse, plan, mirror into the
//! buffer of recent samples, count and record the outcome. Every failure is
//! counted, none is fatal.
use vstd::prelude::*;
use vstd::string::*;
use crate::config::{TargetConfig, TargetConfigView};
use crate::counts;
use crate::counts::{CountView, SelfCount};
use crate::exposition;
use crate::labels;
use crate::query;
use crate::query::{BufferedSample, BufferedView, QueryView, RecentBuffer};
use crate::query_laws;
use crate::scrape;
use crate::scrape::{FetchError, PlannedSample, PlannedView, Sample, ScrapeStatus};
use crate::status;
use crate::status::StatusTracker;

verus! {

/// Refuse a body that announces more bytes than the cap.
pub fn check_content_length(length: Option<u64>, max_bytes: usize) -> (r: Result<(), FetchError>)
    ensures
        match r {
            Ok(()) => length is None || length->0 <= max_bytes,
            Err(e) => length is Some && length->0 > max_bytes && e == FetchError::TooLarge(
                max_bytes,
            ),
        },
{
    match length {
        Some(n) => {
            if n > max_bytes as u64 {
                return Err(FetchError::TooLarge(max_bytes));
            }
        },
        None => {},
    }
    Ok(())
}

/// `std::string::String::from_utf8`: the text that the bytes encode, or `None`
/// where they are not valid UTF-8.
#[verifier::external_body]
fn utf8_text(bytes: Vec<u8>) -> (r: Option<String>)
    ensures
        match r {
            Some(s) => vstd::utf8::valid_utf8(bytes@) && s@ == vstd::utf8::decode_utf8(bytes@),
            None => !vstd::utf8::valid_utf8(bytes@),
        },
{
    String::from_utf8(bytes).ok()
}

/// Accept a fetched body: no more bytes than the cap, and UTF-8 text.
pub fn accept_body(bytes: Vec<u8>, max_bytes: usize) -> (r: Result<String, FetchError>)
    ensures
        match r {
            Ok(body) => bytes@.len() <= max_bytes && vstd::utf8::valid_utf8(bytes@) && body@
                == vstd::utf8::decode_utf8(bytes@),
            Err(FetchError::TooLarge(n)) => bytes@.len() > max_bytes && n == max_bytes,
            Err(FetchError::InvalidUtf8) => bytes@.len() <= max_bytes && !vstd::utf8::valid_utf8(
                bytes@,
            ),
            Err(FetchError::Request(_)) => false,
        },
{
    if bytes.len() > max_bytes {
        return Err(FetchError::TooLarge(max_bytes));
    }
    match utf8_text(bytes) {
        Some(body) => Ok(body),
        None => Err(FetchError::InvalidUtf8),
    }
}

/// What came of fetching and parsing.
#[derive(Debug)]
pub enum Scraped {
    /// Not fetched.
    Unfetched(FetchError),
    /// Fetched, but not parsed.
    Unparsed(String),
    /// The samples of the body.
    Parsed(Vec<Sample>),
}

/// The outcome of the attempt.
pub open spec fn status_of(scraped: Scraped) -> ScrapeStatus {
    match scraped {
        Scraped::Unfetched(_) => ScrapeStatus::FetchError,
        Scraped::Unparsed(_) => ScrapeStatus::ParseError,
        Scraped::Parsed(_) => ScrapeStatus::Success,
    }
}

/// What could be stored, the cap aside.
pub open spec fn offered(target: TargetConfigView, scraped: Scraped) -> Seq<PlannedView> {
    match scraped {
        Scraped::Parsed(samples) => scrape::candidates(
            target.name,
            samples.deep_view(),
            target.allow,
        ),
        _ => Seq::empty(),
    }
}

/// A stored sample as it stands in the buffer.
pub open spec fn mirrored(p: PlannedView, now_micros: u64) -> BufferedView {
    BufferedView { ts: now_micros, name: p.name, value: p.value, labels: p.labels }
}

/// The stored samples as they stand in the buffer.
pub open spec fn all_mirrored(planned: Seq<PlannedView>, now_micros: u64) -> Seq<BufferedView> {
    planned.map_values(|p: PlannedView| mirrored(p, now_micros))
}

/// The increments that a successful scrape makes beside its outcome: what left
/// the buffer, what was stored, what was over the cap.
pub open spec fn storing_counts(
    target: Seq<char>,
    stored: nat,
    dropped: nat,
    evicted: nat,
) -> Seq<CountView> {
    let left = if evicted > 0 {
        seq![
            counts::count_of(
                "collector_buffer_dropped_total"@,
                evicted,
                target,
                "reason"@,
                "over_cap"@,
            ),
        ]
    } else {
        Seq::empty()
    };
    let over = if dropped > 0 {
        seq![
            counts::count_of(
                "collector_samples_dropped_total"@,
                dropped,
                target,
                "reason"@,
                "over_cap"@,
            ),
        ]
    } else {
        Seq::empty()
    };
    left + seq![counts::target_count_of("collector_samples_stored_total"@, stored, target)] + over
}

/// The increment that every attempt makes.
pub open spec fn outcome_count(target: Seq<char>, status: ScrapeStatus) -> CountView {
    counts::count_of(
        "collector_scrape_total"@,
        1,
        target,
        "status"@,
        scrape::status_text(status),
    )
}

/// How many samples leave the buffer when `n` come in.
pub open spec fn evicted(buffer: RecentBuffer, n: nat) -> nat {
    if buffer@.len() + n > buffer.capacity() {
        (buffer@.len() + n - buffer.capacity()) as nat
    } else {
        0
    }
}

/// What one scrape attempt made.
#[derive(Debug)]
pub struct ScrapeOutcome {
    /// The outcome.
    pub status: ScrapeStatus,
    /// What is to be stored.
    pub planned: Vec<PlannedSample>,
    /// How many samples were over the cap.
    pub dropped: usize,
    /// Increments of the collector's own counters, in order.
    pub counts: Vec<SelfCount>,
}

/// `r` is the outcome of the attempt, and the buffer takes what is stored.
pub open spec fn is_outcome(
    r: ScrapeOutcome,
    target: TargetConfigView,
    scraped: Scraped,
    max_samples: usize,
    now_micros: u64,
    before: RecentBuffer,
    after: RecentBuffer,
) -> bool {
    let all = offered(target, scraped);
    let stored = scrape::first_n(all, max_samples as nat);
    let over = scrape::over_cap(all, max_samples as nat);
    &&& r.status == status_of(scraped)
    &&& r.planned.deep_view() == stored
    &&& r.dropped == over
    &&& after.capacity() == before.capacity()
    &&& scraped is Parsed ==> after@ == query::last_n(
        before@ + all_mirrored(stored, now_micros),
        before.capacity(),
    )
    &&& !(scraped is Parsed) ==> after@ == before@
    &&& r.counts.deep_view() == (if scraped is Parsed {
        storing_counts(target.name, stored.len(), over, evicted(before, stored.len()))
    } else {
        Seq::empty()
    }).push(outcome_count(target.name, status_of(scraped)))
}

/// The stored samples as they stand in the buffer.
fn mirror(planned: &Vec<PlannedSample>, now_micros: u64) -> (r: Vec<BufferedSample>)
    ensures
        r.deep_view() == all_mirrored(planned.deep_view(), now_micros),
{
    let mut r: Vec<BufferedSample> = Vec::new();
    let mut i: usize = 0;
    while i < planned.len()
        invariant
            i <= planned.len(),
            r.len() == i,
            forall|k: int|
                0 <= k < i ==> (#[trigger] r@[k]).deep_view() == mirrored(
                    planned@[k].deep_view(),
                    now_micros,
                ),
        decreases planned.len() - i,
    {
        r.push(
            BufferedSample {
                ts_micros: now_micros,
                name: planned[i].name.clone(),
                value: planned[i].value,
                labels: labels::clone_labels(&planned[i].labels),
            },
        );
        i = i + 1;
    }
    assert(r.deep_view() =~= all_mirrored(planned.deep_view(), now_micros));
    r
}

/// Adds `c` to the list.
fn add_count(list: &mut Vec<SelfCount>, c: SelfCount)
    ensures
        final(list).deep_view() == old(list).deep_view().push(c.deep_view()),
{
    let ghost before = list.deep_view();
    let ghost cv = c.deep_view();
    list.push(c);
    assert(list.deep_view() =~= before.push(cv));
}

/// What follows fetching and parsing: plan what is stored, mirror it into the
/// buffer, count.
pub fn finish_scrape(
    target: &TargetConfig,
    scraped: &Scraped,
    max_samples: usize,
    now_micros: u64,
    buffer: &mut RecentBuffer,
) -> (r: ScrapeOutcome)
    requires
        old(buffer).wf(),
    ensures
        final(buffer).wf(),
        is_outcome(
            r,
            target.deep_view(),
            *scraped,
            max_samples,
            now_micros,
            *old(buffer),
            *final(buffer),
        ),
{
    let name = target.name.as_str();
    let mut list: Vec<SelfCount> = Vec::new();
    let mut planned: Vec<PlannedSample> = Vec::new();
    let mut dropped: usize = 0;
    assert(list.deep_view() =~= Seq::empty());
    assert(planned.deep_view() =~= Seq::empty());
    let status = match scraped {
        Scraped::Unfetched(_) => ScrapeStatus::FetchError,
        Scraped::Unparsed(_) => ScrapeStatus::ParseError,
        Scraped::Parsed(samples) => {
            let plan = scrape::plan_samples(name, samples, &target.allow, max_samples);
            planned = plan.0;
            dropped = plan.1;
            assert(planned.deep_view().len() == planned.len());
            let batch = mirror(&planned, now_micros);
            assert(batch.deep_view().len() == batch.len());
            match buffer.push_batch(name, &batch) {
                Some(c) => {
                    add_count(&mut list, c);
                },
                None => {},
            }
            add_count(
                &mut list,
                counts::target_count("collector_samples_stored_total", planned.len(), name),
            );
            if dropped > 0 {
                add_count(
                    &mut list,
                    counts::self_count(
                        "collector_samples_dropped_total",
                        dropped,
                        name,
                        "reason",
                        "over_cap",
                    ),
                );
            }
            assert(list.deep_view() =~= storing_counts(
                name@,
                planned@.len(),
                dropped as nat,
                evicted(*old(buffer), planned@.len()),
            ));
            ScrapeStatus::Success
        },
    };
    add_count(
        &mut list,
        counts::self_count("collector_scrape_total", 1, name, "status", status.as_str()),
    );
    ScrapeOutcome { status, planned, dropped, counts: list }
}

/// One scrape cycle for a target from what was fetched: parse, plan, mirror into
/// the buffer, count, and record the attempt. A body is always parsed: what is
/// not exposition text in it is skipped. The attempt took `duration_ms` and is
/// recorded at the time `now`.
pub fn scrape_once(
    target: &TargetConfig,
    fetched: Result<String, FetchError>,
    max_samples: usize,
    now_micros: u64,
    buffer: &mut RecentBuffer,
    tracker: &mut StatusTracker,
    duration_ms: u64,
    now: u64,
) -> (r: ScrapeOutcome)
    requires
        old(buffer).wf(),
    ensures
        final(buffer).wf(),
        match fetched {
            Err(e) => is_outcome(
                r,
                target.deep_view(),
                Scraped::Unfetched(e),
                max_samples,
                now_micros,
                *old(buffer),
                *final(buffer),
            ),
            Ok(body) => exists|samples: Vec<Sample>|
                exposition::reads(#[trigger] samples.deep_view(), exposition::exposition(body@))
                    && is_outcome(
                    r,
                    target.deep_view(),
                    Scraped::Parsed(samples),
                    max_samples,
                    now_micros,
                    *old(buffer),
                    *final(buffer),
                ),
        },
        final(tracker)@ == status::recorded(
            old(tracker)@,
            target.name@,
            r.status,
            r.planned@.len() as usize,
            duration_ms,
            now,
        ),
{
    let scraped = match fetched {
        Err(e) => Scraped::Unfetched(e),
        Ok(body) => match exposition::parse_body(body.as_str()) {
            Ok(samples) => Scraped::Parsed(samples),
            Err(e) => Scraped::Unparsed(e),
        },
    };
    let r = finish_scrape(target, &scraped, max_samples, now_micros, buffer);
    tracker.record_at(target.name.as_str(), r.status, r.planned.len(), duration_ms, now);
    r
}

/// Every attempt is counted under its outcome, and a failed one stores nothing
/// and leaves the buffer as it was.
pub proof fn law_failures_counted(
    r: ScrapeOutcome,
    target: TargetConfigView,
    scraped: Scraped,
    max_samples: usize,
    now_micros: u64,
    before: RecentBuffer,
    after: RecentBuffer,
)
    requires
        is_outcome(r, target, scraped, max_samples, now_micros, before, after),
    ensures
        r.counts.deep_view().len() > 0,
        r.counts.deep_view().last() == outcome_count(target.name, r.status),
        r.status != ScrapeStatus::Success ==> r.planned@.len() == 0 && r.dropped == 0 && after@
            == before@ && r.counts@.len() == 1,
{
    assert(r.planned.deep_view().len() == r.planned@.len());
    assert(r.counts.deep_view().len() == r.counts@.len());
}

/// What a scrape stored can be queried at once: where the buffer can hold the
/// batch, every stored sample that a query asks for is in the query's answer.
pub proof fn law_scrape_then_query(
    r: ScrapeOutcome,
    target: TargetConfigView,
    scraped: Scraped,
    max_samples: usize,
    now_micros: u64,
    before: RecentBuffer,
    after: RecentBuffer,
    i: int,
    q: QueryView,
)
    requires
        is_outcome(r, target, scraped, max_samples, now_micros, before, after),
        scraped is Parsed,
        r.planned@.len() <= before.capacity(),
        0 <= i < r.planned@.len(),
        query::selected(q, mirrored(r.planned@[i].deep_view(), now_micros)),
    ensures
        query_laws::answered(after@, q, mirrored(r.planned@[i].deep_view(), now_micros)),
{
    let batch = all_mirrored(r.planned.deep_view(), now_micros);
    let all = before@ + batch;
    let kept = query::last_n(all, before.capacity());
    assert(r.planned.deep_view()[i] == r.planned@[i].deep_view());
    assert(batch.len() == r.planned@.len());
    let k = kept.len() - batch.len() + i;
    assert(kept[k] == batch[i]);
    query_laws::law_complete(kept, q, k);
}

/// A scrape that was fetched and parsed succeeds, and plans what its samples
/// offer up to the cap; one that was not stores nothing, and the outcome says
/// which of the two went wrong.
pub proof fn law_outcome(
    r: ScrapeOutcome,
    target: TargetConfigView,
    scraped: Scraped,
    max_samples: usize,
    now_micros: u64,
    before: RecentBuffer,
    after: RecentBuffer,
)
    requires
        is_outcome(r, target, scraped, max_samples, now_micros, before, after),
    ensures
        scraped is Unfetched <==> r.status == ScrapeStatus::FetchError,
        scraped is Unparsed <==> r.status == ScrapeStatus::ParseError,
        scraped is Parsed <==> r.status == ScrapeStatus::Success,
        scraped matches Scraped::Parsed(samples) ==> r.planned.deep_view() == scrape::first_n(
            scrape::candidates(target.name, samples.deep_view(), target.allow),
            max_samples as nat,
        ) && r.dropped == scrape::over_cap(
            scrape::candidates(target.name, samples.deep_view(), target.allow),
            max_samples as nat,
        ),
        !(scraped is Parsed) ==> r.planned@.len() == 0 && r.dropped == 0 && after@ == before@,
{
    assert(r.planned.deep_view().len() == r.planned@.len());
}

/// What a scrape stores is mirrored into the buffer: what comes in is one sample
/// for each stored one, in order, with its name, value and labels, at the time of
/// the scrape; what leaves is the oldest.
pub proof fn law_mirrored(
    r: ScrapeOutcome,
    target: TargetConfigView,
    scraped: Scraped,
    max_samples: usize,
    now_micros: u64,
    before: RecentBuffer,
    after: RecentBuffer,
    k: int,
)
    requires
        is_outcome(r, target, scraped, max_samples, now_micros, before, after),
        scraped is Parsed,
        before.wf(),
        after.wf(),
        0 <= k < after@.len(),
    ensures
        ({
            let n = r.planned@.len() as int;
            let i = n - after@.len() + k;
            &&& before@.len() + n <= before.capacity() ==> after@.len() == before@.len() + n
            &&& before@.len() + n > before.capacity() ==> after@.len() == before.capacity()
            &&& i >= 0 ==> after@[k].ts == now_micros && after@[k].name == r.planned@[i].name@
                && after@[k].value == r.planned@[i].value && after@[k].labels
                == r.planned@[i].labels.deep_view()
            &&& i < 0 ==> after@[k] == before@[before@.len() + i]
        }),
{
    let batch = all_mirrored(r.planned.deep_view(), now_micros);
    assert(batch.len() == r.planned@.len());
    let n = r.planned@.len() as int;
    let i = n - after@.len() + k;
    if i >= 0 {
        assert(r.planned.deep_view()[i] == r.planned@[i].deep_view());
        assert(after@[k] == batch[i]);
    }
}

/// The collector's own counters after a successful scrape, in order: what left
/// the buffer, where anything did; what was stored, under the target; what was
/// over the cap, where anything was; and one for the attempt, under its outcome.
pub proof fn law_success_counted(
    r: ScrapeOutcome,
    target: TargetConfigView,
    scraped: Scraped,
    max_samples: usize,
    now_micros: u64,
    before: RecentBuffer,
    after: RecentBuffer,
)
    requires
        is_outcome(r, target, scraped, max_samples, now_micros, before, after),
        scraped is Parsed,
    ensures
        ({
            let c = r.counts.deep_view();
            let n = r.planned@.len();
            let left = before@.len() + n - before.capacity();
            let a = if left > 0 {
                1int
            } else {
                0
            };
            let b = if r.dropped > 0 {
                1int
            } else {
                0
            };
            &&& c.len() == a + b + 2
            &&& left > 0 ==> c[0].name == "collector_buffer_dropped_total"@ && c[0].amount == left
                && c[0].labels == seq![("target"@, target.name), ("reason"@, "over_cap"@)]
            &&& c[a].name == "collector_samples_stored_total"@ && c[a].amount == n && c[a].labels
                == seq![("target"@, target.name)]
            &&& r.dropped > 0 ==> c[a + 1].name == "collector_samples_dropped_total"@ && c[a
                + 1].amount == r.dropped && c[a + 1].labels == seq![
                ("target"@, target.name),
                ("reason"@, "over_cap"@),
            ]
            &&& c[a + b + 1].name == "collector_scrape_total"@ && c[a + b + 1].amount == 1 && c[a
                + b + 1].labels == seq![("target"@, target.name), ("status"@, "ok"@)]
        }),
{
    assert(r.planned.deep_view().len() == r.planned@.len());
}

/// The collector's own counters after a failed attempt: one for the attempt,
/// under its outcome, and no other.
pub proof fn law_failure_counted(
    r: ScrapeOutcome,
    target: TargetConfigView,
    scraped: Scraped,
    max_samples: usize,
    now_micros: u64,
    before: RecentBuffer,
    after: RecentBuffer,
)
    requires
        is_outcome(r, target, scraped, max_samples, now_micros, before, after),
        !(scraped is Parsed),
    ensures
        r.counts.deep_view().len() == 1,
        r.counts.deep_view()[0].name == "collector_scrape_total"@,
        r.counts.deep_view()[0].amount == 1,
        scraped is Unfetched ==> r.counts.deep_view()[0].labels == seq![
            ("target"@, target.name),
            ("status"@, "fetch_error"@),
        ],
        scraped is Unparsed ==> r.counts.deep_view()[0].labels == seq![
            ("target"@, target.name),
            ("status"@, "parse_error"@),
        ],
{
}

}
