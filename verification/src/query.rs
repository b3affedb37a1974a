//! Hot range queries over a bounded buffer of recent samples.
//!
//! A sample's value is an IEEE 754 double held as its 64 bits: nothing here
//! computes with it, so values pass through unchanged, NaN and infinities
//! included.
use vstd::prelude::*;
use std::collections::{BTreeMap, VecDeque};
use vstd::string::*;
use crate::counts;
use crate::counts::SelfCount;
use crate::labels;
use crate::text;
pub use crate::clock::now_micros;
pub use crate::matrix::render_matrix;
pub use crate::numbers::format_value;
pub use crate::range::{parse_range_query, parse_step, parse_time, MAX_RANGE_SECS, MIN_STEP_SECS};
pub use crate::selector::parse_selector;

verus! {

broadcast use vstd::std_specs::btree::group_btree_axioms;

/// Default buffer capacity in samples (~6 MiB worst case).
pub const DEFAULT_BUFFER_SAMPLES: usize = 20_000;

/// Hard cap on total points per response.
pub const MAX_POINTS: usize = 10_000;

/// One buffered observation (labels already sorted by the scrape pipeline).
#[derive(Debug, Clone)]
pub struct BufferedSample {
    /// Capture time, micros since the Unix epoch.
    pub ts_micros: u64,
    /// Series name.
    pub name: String,
    /// Bits of the sample value.
    pub value: u64,
    /// Sorted `(key, value)` label pairs, including `scrape_target`.
    pub labels: Vec<(String, String)>,
}

/// What a [`BufferedSample`] holds.
pub struct BufferedView {
    pub ts: u64,
    pub name: Seq<char>,
    pub value: u64,
    pub labels: Seq<labels::Pair>,
}

impl DeepView for BufferedSample {
    type V = BufferedView;

    open spec fn deep_view(&self) -> BufferedView {
        BufferedView {
            ts: self.ts_micros,
            name: self.name@,
            value: self.value,
            labels: self.labels.deep_view(),
        }
    }
}

impl BufferedSample {
    /// A copy of this sample.
    pub fn copy(&self) -> (r: Self)
        ensures
            r.deep_view() == self.deep_view(),
    {
        BufferedSample {
            ts_micros: self.ts_micros,
            name: self.name.clone(),
            value: self.value,
            labels: labels::clone_labels(&self.labels),
        }
    }
}

/// A validated range query.
#[derive(Debug, Clone)]
pub struct RangeQuery {
    /// Exact metric name.
    pub name: String,
    /// Exact `=` label matchers.
    pub matchers: Vec<(String, String)>,
    /// Range start, micros since epoch.
    pub start_micros: u64,
    /// Range end, micros since epoch.
    pub end_micros: u64,
    /// Step width, micros.
    pub step_micros: u64,
}

/// What a [`RangeQuery`] asks for.
pub struct QueryView {
    pub name: Seq<char>,
    pub matchers: Seq<labels::Pair>,
    pub start: u64,
    pub end: u64,
    pub step: u64,
}

impl DeepView for RangeQuery {
    type V = QueryView;

    open spec fn deep_view(&self) -> QueryView {
        QueryView {
            name: self.name@,
            matchers: self.matchers.deep_view(),
            start: self.start_micros,
            end: self.end_micros,
            step: self.step_micros,
        }
    }
}

/// One grouped series with per-bucket latest points.
#[derive(Debug)]
pub struct Series {
    /// Series name.
    pub name: String,
    /// Sorted label pairs.
    pub labels: Vec<(String, String)>,
    /// Step-bucket index to the latest `(ts_micros, value bits)`.
    pub buckets: BTreeMap<u64, (u64, u64)>,
}

/// What a [`Series`] holds.
#[verifier::ext_equal]
pub struct SeriesView {
    pub name: Seq<char>,
    pub labels: Seq<labels::Pair>,
    pub points: Map<u64, (u64, u64)>,
}

impl DeepView for Series {
    type V = SeriesView;

    open spec fn deep_view(&self) -> SeriesView {
        SeriesView {
            name: self.name@,
            labels: self.labels.deep_view(),
            points: self.buckets@,
        }
    }
}

/// Outcome of [`RecentBuffer::query`].
#[derive(Debug)]
pub struct QueryOutcome {
    /// Matched series (possibly empty: empty is success, not error).
    pub series: Vec<Series>,
    /// True when `start` predates the buffer (partial answer).
    pub clamped: bool,
}

/// Query validation failure (always HTTP 400 with a Prometheus error body).
#[derive(Debug)]
pub struct QueryError {
    msg: String,
}

impl View for QueryError {
    type V = Seq<char>;

    closed spec fn view(&self) -> Seq<char> {
        self.msg@
    }
}

impl QueryError {
    /// An error that says `msg`.
    pub(crate) fn new(msg: String) -> (r: Self)
        ensures
            r@ == msg@,
    {
        QueryError { msg }
    }

    /// Public constructor for handler-level rejections.
    #[must_use]
    pub fn bad_data(msg: &str) -> (r: Self)
        ensures
            r@ == msg@,
    {
        QueryError { msg: msg.to_string() }
    }

    /// What went wrong.
    pub fn message(&self) -> (r: &str)
        ensures
            r@ == self@,
    {
        self.msg.as_str()
    }
}

/// `s` carries every label that `matchers` asks for.
pub open spec fn labels_match(matchers: Seq<labels::Pair>, s: BufferedView) -> bool {
    forall|i: int|
        0 <= i < matchers.len() ==> labels::has_label(
            s.labels,
            (#[trigger] matchers[i]).0,
            matchers[i].1,
        )
}

/// `s` is one of the samples that `q` asks for.
pub open spec fn selected(q: QueryView, s: BufferedView) -> bool {
    q.start <= s.ts <= q.end && s.name == q.name && labels_match(q.matchers, s)
}

/// The samples that `q` asks for, in buffer order.
pub open spec fn hits(samples: Seq<BufferedView>, q: QueryView) -> Seq<BufferedView>
    decreases samples.len(),
{
    if samples.len() == 0 {
        Seq::empty()
    } else if selected(q, samples.last()) {
        hits(samples.drop_last(), q).push(samples.last())
    } else {
        hits(samples.drop_last(), q)
    }
}

/// The label sets of `h`, each once, in the order in which they are first seen.
pub open spec fn label_sets(h: Seq<BufferedView>) -> Seq<Seq<labels::Pair>>
    decreases h.len(),
{
    if h.len() == 0 {
        Seq::empty()
    } else {
        let seen = label_sets(h.drop_last());
        if seen.contains(h.last().labels) {
            seen
        } else {
            seen.push(h.last().labels)
        }
    }
}

/// The step bucket of a selected sample.
pub open spec fn bucket_of(q: QueryView, s: BufferedView) -> u64 {
    ((s.ts - q.start) / (q.step as int)) as u64
}

/// The samples of `h` with the label set `ls` that fall into bucket `b`.
pub open spec fn in_bucket(
    h: Seq<BufferedView>,
    q: QueryView,
    ls: Seq<labels::Pair>,
    b: u64,
) -> Seq<BufferedView>
    decreases h.len(),
{
    if h.len() == 0 {
        Seq::empty()
    } else if h.last().labels == ls && bucket_of(q, h.last()) == b {
        in_bucket(h.drop_last(), q, ls, b).push(h.last())
    } else {
        in_bucket(h.drop_last(), q, ls, b)
    }
}

/// Time and value of the latest sample of `s`; among samples of one time, of
/// the last one.
pub open spec fn latest(s: Seq<BufferedView>) -> (u64, u64)
    decreases s.len(),
{
    if s.len() <= 1 || s.last().ts >= latest(s.drop_last()).0 {
        (s.last().ts, s.last().value)
    } else {
        latest(s.drop_last())
    }
}

/// The points of the series with label set `ls`: per bucket, its latest sample.
pub open spec fn points(h: Seq<BufferedView>, q: QueryView, ls: Seq<labels::Pair>) -> Map<
    u64,
    (u64, u64),
> {
    Map::new(
        |b: u64| in_bucket(h, q, ls, b).len() > 0,
        |b: u64| latest(in_bucket(h, q, ls, b)),
    )
}

/// The answer to `q` over `samples`: one series per label set, in first-seen
/// order.
pub open spec fn answer(samples: Seq<BufferedView>, q: QueryView) -> Seq<SeriesView> {
    let h = hits(samples, q);
    label_sets(h).map_values(
        |ls: Seq<labels::Pair>|
            SeriesView { name: q.name, labels: ls, points: points(h, q, ls) },
    )
}

/// The answer is partial: the oldest buffered sample is later than the start.
pub open spec fn partial(samples: Seq<BufferedView>, q: QueryView) -> bool {
    samples.len() > 0 && samples[0].ts > q.start
}

/// How many points `series` holds in all.
pub open spec fn total_points(series: Seq<SeriesView>) -> nat
    decreases series.len(),
{
    if series.len() == 0 {
        0
    } else {
        total_points(series.drop_last()) + series.last().points.dom().len()
    }
}

pub(crate) proof fn lemma_points_push(
    h: Seq<BufferedView>,
    q: QueryView,
    ls: Seq<labels::Pair>,
    s: BufferedView,
)
    ensures
        ({
            let old = points(h, q, ls);
            let b = bucket_of(q, s);
            points(h.push(s), q, ls) == if s.labels != ls || (old.contains_key(b) && s.ts
                < old[b].0) {
                old
            } else {
                old.insert(b, (s.ts, s.value))
            }
        }),
{
    let old = points(h, q, ls);
    let b0 = bucket_of(q, s);
    assert(h.push(s).drop_last() =~= h);
    assert forall|b: u64| true implies #[trigger] in_bucket(h.push(s), q, ls, b) == if s.labels
        == ls && b == b0 {
        in_bucket(h, q, ls, b).push(s)
    } else {
        in_bucket(h, q, ls, b)
    } by {}
    let before = in_bucket(h, q, ls, b0);
    assert(before.push(s).drop_last() =~= before);
    let new = points(h.push(s), q, ls);
    if s.labels != ls {
        assert(new =~= old);
    } else if old.contains_key(b0) && s.ts < old[b0].0 {
        assert(new =~= old);
    } else {
        assert(new =~= old.insert(b0, (s.ts, s.value)));
    }
}

proof fn lemma_points_finite(h: Seq<BufferedView>, q: QueryView, ls: Seq<labels::Pair>)
    ensures
        points(h, q, ls).dom().finite(),
    decreases h.len(),
{
    if h.len() == 0 {
        assert(points(h, q, ls) =~= Map::empty());
    } else {
        lemma_points_finite(h.drop_last(), q, ls);
        lemma_points_push(h.drop_last(), q, ls, h.last());
        assert(h.drop_last().push(h.last()) =~= h);
    }
}

proof fn lemma_points_unseen(h: Seq<BufferedView>, q: QueryView, ls: Seq<labels::Pair>)
    requires
        !label_sets(h).contains(ls),
    ensures
        points(h, q, ls) == Map::<u64, (u64, u64)>::empty(),
    decreases h.len(),
{
    if h.len() == 0 {
        assert(points(h, q, ls) =~= Map::empty());
    } else {
        let init = h.drop_last();
        let seen = label_sets(init);
        if seen.contains(ls) {
            let i = choose|i: int| 0 <= i < seen.len() && seen[i] == ls;
            assert(label_sets(h)[i] == ls);
        }
        if h.last().labels == ls && !seen.contains(ls) {
            assert(label_sets(h).last() == ls);
        }
        lemma_points_unseen(init, q, ls);
        lemma_points_push(init, q, ls, h.last());
        assert(init.push(h.last()) =~= h);
    }
}

proof fn lemma_total_points_update(series: Seq<SeriesView>, i: int, s: SeriesView)
    requires
        0 <= i < series.len(),
    ensures
        total_points(series.update(i, s)) == total_points(series) - series[i].points.dom().len()
            + s.points.dom().len(),
    decreases series.len(),
{
    let new = series.update(i, s);
    if i == series.len() - 1 {
        assert(new.drop_last() =~= series.drop_last());
    } else {
        lemma_total_points_update(series.drop_last(), i, s);
        assert(new.drop_last() =~= series.drop_last().update(i, s));
    }
}

proof fn lemma_hits_nonempty(samples: Seq<BufferedView>, q: QueryView, i: int)
    requires
        0 <= i < samples.len(),
        selected(q, samples[i]),
    ensures
        hits(samples, q).len() > 0,
    decreases samples.len(),
{
    if i < samples.len() - 1 {
        lemma_hits_nonempty(samples.drop_last(), q, i);
    }
}

/// The message of an answer that is too large.
pub open spec fn too_many_points(n: nat) -> Seq<char> {
    "query would return "@ + text::decimal(n) + " points (limit 10000); increase step"@
}

/// The message of an answer of `n` points, which is too large.
fn too_many_points_text(n: usize) -> (r: String)
    ensures
        r@ == too_many_points(n as nat),
{
    text::cat3(
        "query would return ",
        text::number(n as u128).as_str(),
        " points (limit 10000); increase step",
    )
}

/// Whether `pairs` holds every pair of `matchers`.
fn carries(pairs: &Vec<(String, String)>, matchers: &Vec<(String, String)>) -> (r: bool)
    ensures
        r == (forall|i: int|
            0 <= i < matchers.deep_view().len() ==> labels::has_label(
                pairs.deep_view(),
                (#[trigger] matchers.deep_view()[i]).0,
                matchers.deep_view()[i].1,
            )),
{
    let mut i: usize = 0;
    while i < matchers.len()
        invariant
            i <= matchers.len(),
            forall|k: int|
                0 <= k < i ==> labels::has_label(
                    pairs.deep_view(),
                    (#[trigger] matchers.deep_view()[k]).0,
                    matchers.deep_view()[k].1,
                ),
        decreases matchers.len() - i,
    {
        if !labels::contains_label(pairs, matchers[i].0.as_str(), matchers[i].1.as_str()) {
            assert(matchers.deep_view()[i as int] == (matchers@[i as int].0@, matchers@[i as int].1@));
            return false;
        }
        i = i + 1;
    }
    true
}

/// The series that the samples `h` make up.
spec fn series_of(h: Seq<BufferedView>, q: QueryView) -> Seq<SeriesView> {
    label_sets(h).map_values(
        |ls: Seq<labels::Pair>|
            SeriesView { name: q.name, labels: ls, points: points(h, q, ls) },
    )
}

pub(crate) proof fn lemma_label_sets_distinct(h: Seq<BufferedView>)
    ensures
        label_sets(h).no_duplicates(),
    decreases h.len(),
{
    if h.len() > 0 {
        lemma_label_sets_distinct(h.drop_last());
    }
}

/// Puts the sample `s` into its series and bucket, and says whether that made
/// a new point.
fn add_point(
    groups: &mut Vec<Series>,
    s: &BufferedSample,
    bucket: u64,
    Ghost(h): Ghost<Seq<BufferedView>>,
    Ghost(q): Ghost<QueryView>,
) -> (fresh: bool)
    requires
        old(groups).deep_view() == series_of(h, q),
        s.name@ == q.name,
        bucket == bucket_of(q, s.deep_view()),
    ensures
        final(groups).deep_view() == series_of(h.push(s.deep_view()), q),
        total_points(final(groups).deep_view()) == total_points(old(groups).deep_view()) + if fresh {
            1int
        } else {
            0
        },
{
    let ghost sv = s.deep_view();
    let ghost h2 = h.push(sv);
    let ghost before = groups.deep_view();
    let ghost sets = label_sets(h);
    proof {
        lemma_label_sets_distinct(h);
        assert(h2.drop_last() =~= h);
        assert forall|ls: Seq<labels::Pair>| ls != sv.labels implies #[trigger] points(h2, q, ls)
            == points(h, q, ls) by {
            lemma_points_push(h, q, ls, sv);
        }
        lemma_points_push(h, q, sv.labels, sv);
        lemma_points_finite(h, q, sv.labels);
        assert(before.len() == groups.len());
    }
    let mut gi: usize = 0;
    while gi < groups.len() && !labels::same_labels(&groups[gi].labels, &s.labels)
        invariant
            gi <= groups.len(),
            groups.deep_view() == before,
            before == series_of(h, q),
            sets == label_sets(h),
            groups.len() == sets.len(),
            sv == s.deep_view(),
            forall|k: int| 0 <= k < gi ==> #[trigger] sets[k] != sv.labels,
        decreases groups.len() - gi,
    {
        assert(before[gi as int].labels == sets[gi as int]);
        gi = gi + 1;
    }
    if gi == groups.len() {
        proof {
            assert(!sets.contains(sv.labels));
            lemma_points_unseen(h, q, sv.labels);
        }
        let mut buckets: BTreeMap<u64, (u64, u64)> = BTreeMap::new();
        buckets.insert(bucket, (s.ts_micros, s.value));
        groups.push(
            Series { name: s.name.clone(), labels: labels::clone_labels(&s.labels), buckets },
        );
        proof {
            let now = groups.deep_view();
            let last = now.last();
            assert(now =~= before.push(last));
            assert(now.drop_last() =~= before);
            assert(last.points =~= points(h2, q, sv.labels));
            assert(now =~= series_of(h2, q));
        }
        return true;
    }
    proof {
        assert(before[gi as int].labels == sets[gi as int]);
        assert(sets.contains(sv.labels));
        assert(label_sets(h2) == sets);
        assert(before[gi as int].points == points(h, q, sv.labels));
    }
    let earlier: Option<(u64, u64)> = match groups[gi].buckets.get(&bucket) {
        Some(p) => Some(*p),
        None => None,
    };
    let fresh = earlier.is_none();
    let stale = match earlier {
        Some(p) => s.ts_micros < p.0,
        None => false,
    };
    if !stale {
        groups[gi].buckets.insert(bucket, (s.ts_micros, s.value));
    }
    proof {
        let now = groups.deep_view();
        let mine = SeriesView { name: q.name, labels: sv.labels, points: points(h2, q, sv.labels) };
        assert(now[gi as int].points =~= mine.points);
        assert(now =~= before.update(gi as int, mine));
        lemma_total_points_update(before, gi as int, mine);
        assert(now =~= series_of(h2, q));
    }
    fresh
}

/// Bounded buffer of recent samples: when it is full, the oldest leave.
#[derive(Debug)]
pub struct RecentBuffer {
    inner: VecDeque<BufferedSample>,
    cap: usize,
}

impl View for RecentBuffer {
    type V = Seq<BufferedView>;

    closed spec fn view(&self) -> Seq<BufferedView> {
        self.inner.deep_view()
    }
}

/// A sample named `n` is in `samples`.
pub open spec fn buffered(samples: Seq<BufferedView>, n: Seq<char>) -> bool {
    exists|i: int| 0 <= i < samples.len() && (#[trigger] samples[i]).name == n
}

proof fn lemma_buffered_push(samples: Seq<BufferedView>, s: BufferedView, n: Seq<char>)
    ensures
        buffered(samples.push(s), n) <==> buffered(samples, n) || s.name == n,
{
    let all = samples.push(s);
    if s.name == n {
        assert(all[samples.len() as int].name == n);
    }
    if buffered(samples, n) {
        let i = choose|i: int| 0 <= i < samples.len() && (#[trigger] samples[i]).name == n;
        assert(all[i].name == n);
    }
}

proof fn lemma_insert_contains(names: Seq<Seq<char>>, j: int, x: Seq<char>, n: Seq<char>)
    requires
        0 <= j <= names.len(),
    ensures
        names.insert(j, x).contains(n) <==> names.contains(n) || n == x,
{
    let r = names.insert(j, x);
    assert(r[j] == x);
    if names.contains(n) {
        let i = choose|i: int| 0 <= i < names.len() && names[i] == n;
        if i < j {
            assert(r[i] == n);
        } else {
            assert(r[i + 1] == n);
        }
    }
}

proof fn lemma_names_inserted(names: Seq<Seq<char>>, j: int, x: Seq<char>)
    requires
        0 <= j <= names.len(),
        forall|a: int, b: int|
            0 <= a < b < names.len() ==> text::text_lt(#[trigger] names[a], #[trigger] names[b]),
        forall|k: int| j <= k < names.len() ==> text::text_lt(x, #[trigger] names[k]),
        j > 0 ==> text::text_lt(names[j - 1], x),
    ensures
        forall|a: int, b: int|
            0 <= a < b < names.len() + 1 ==> text::text_lt(
                #[trigger] names.insert(j, x)[a],
                #[trigger] names.insert(j, x)[b],
            ),
{
    let r = names.insert(j, x);
    assert forall|a: int, b: int| 0 <= a < b < r.len() implies text::text_lt(
        #[trigger] r[a],
        #[trigger] r[b],
    ) by {
        if b == j && a < j - 1 {
            text::lemma_text_order(names[a], names[j - 1], x);
        }
    }
}

/// The last `n` elements of `s`, or all of it.
pub open spec fn last_n(s: Seq<BufferedView>, n: nat) -> Seq<BufferedView> {
    if s.len() <= n {
        s
    } else {
        s.subrange(s.len() - n, s.len() as int)
    }
}

impl RecentBuffer {
    /// The most samples the buffer holds.
    pub closed spec fn capacity(&self) -> nat {
        self.cap as nat
    }

    /// The buffer holds at most `capacity` samples, and room for one.
    pub closed spec fn wf(&self) -> bool {
        self.cap >= 1 && self.inner@.len() <= self.cap
    }

    /// Create an empty buffer holding at most `cap` samples (at least one).
    #[must_use]
    pub fn new(cap: usize) -> (r: Self)
        ensures
            r.wf(),
            r@ == Seq::<BufferedView>::empty(),
            r.capacity() == if cap == 0 {
                1
            } else {
                cap as nat
            },
    {
        let r = RecentBuffer {
            inner: VecDeque::new(),
            cap: if cap == 0 {
                1
            } else {
                cap
            },
        };
        assert(r@ =~= Seq::empty());
        r
    }

    /// Current occupancy and capacity.
    #[must_use]
    pub fn occupancy(&self) -> (r: (usize, usize))
        requires
            self.wf(),
        ensures
            r.0 == self@.len(),
            r.1 == self.capacity(),
            r.0 <= r.1,
    {
        (self.inner.len(), self.cap)
    }

    /// Append samples from one scrape of `target`; evict oldest past capacity.
    /// Evictions are counted, never fatal.
    pub fn push_batch(&mut self, target: &str, samples: &Vec<BufferedSample>) -> (r: Option<
        SelfCount,
    >)
        requires
            old(self).wf(),
        ensures
            final(self).wf(),
            final(self).capacity() == old(self).capacity(),
            final(self)@ == last_n(old(self)@ + samples.deep_view(), old(self).capacity()),
            r is Some <==> old(self)@.len() + samples.len() > old(self).capacity(),
            r is Some ==> r->0.deep_view() == counts::count_of(
                "collector_buffer_dropped_total"@,
                (old(self)@.len() + samples.len() - old(self).capacity()) as nat,
                target@,
                "reason"@,
                "over_cap"@,
            ),
    {
        let mut dropped: usize = 0;
        let mut i: usize = 0;
        let ghost before = self@;
        let ghost all = samples.deep_view();
        assert(before + all.subrange(0, 0) =~= before);
        while i < samples.len()
            invariant
                i <= samples.len(),
                dropped <= i,
                self.wf(),
                self.cap == old(self).cap,
                before == old(self)@,
                before.len() <= self.cap,
                all == samples.deep_view(),
                self@ == last_n(before + all.subrange(0, i as int), self.cap as nat),
                dropped == if before.len() + i <= self.cap {
                    0
                } else {
                    before.len() + i - self.cap
                },
            decreases samples.len() - i,
        {
            let ghost held = self@;
            let ghost sum = before + all.subrange(0, i as int);
            self.inner.push_back(samples[i].copy());
            assert(self@ =~= held.push(all[i as int]));
            let ghost pushed = self@;
            assert(before + all.subrange(0, i + 1) =~= sum.push(all[i as int]));
            if self.inner.len() > self.cap {
                self.inner.pop_front();
                dropped = dropped + 1;
                assert(self@ =~= pushed.subrange(1, pushed.len() as int));
            }
            i = i + 1;
            assert(self@ =~= last_n(before + all.subrange(0, i as int), self.cap as nat));
        }
        assert(all.subrange(0, i as int) =~= all);
        if dropped > 0 {
            Some(
                counts::self_count(
                    "collector_buffer_dropped_total",
                    dropped,
                    target,
                    "reason",
                    "over_cap",
                ),
            )
        } else {
            None
        }
    }

    /// Sorted distinct metric names currently buffered.
    #[must_use]
    pub fn names(&self) -> (r: Vec<String>)
        ensures
            forall|i: int, j: int|
                0 <= i < j < r.len() ==> text::text_lt(
                    #[trigger] r.deep_view()[i],
                    #[trigger] r.deep_view()[j],
                ),
            forall|n: Seq<char>| #[trigger] r.deep_view().contains(n) <==> buffered(self@, n),
    {
        let mut r: Vec<String> = Vec::new();
        let mut i: usize = 0;
        while i < self.inner.len()
            invariant
                i <= self.inner.len(),
                forall|a: int, b: int|
                    0 <= a < b < r.len() ==> text::text_lt(
                        #[trigger] r.deep_view()[a],
                        #[trigger] r.deep_view()[b],
                    ),
                forall|n: Seq<char>| #[trigger]
                    r.deep_view().contains(n) <==> buffered(self@.subrange(0, i as int), n),
            decreases self.inner.len() - i,
        {
            let name = self.inner[i].name.clone();
            let mut j: usize = r.len();
            while j > 0 && text::precedes(name.as_str(), r[j - 1].as_str())
                invariant
                    j <= r.len(),
                    forall|k: int| j <= k < r.len() ==> text::text_lt(name@, #[trigger] r.deep_view()[k]),
                decreases j,
            {
                j = j - 1;
            }
            let ghost before = r.deep_view();
            let ghost seen = self@.subrange(0, i as int);
            let ghost now = self@.subrange(0, i + 1);
            let ghost n0 = name@;
            assert(now =~= seen.push(self@[i as int]));
            assert(self@[i as int].name == n0);
            if j > 0 && text::same(r[j - 1].as_str(), name.as_str()) {
                assert(before[j - 1] == n0);
                assert(before.contains(n0));
            } else {
                proof {
                    if j > 0 {
                        text::lemma_text_order(n0, before[j - 1], n0);
                    }
                }
                r.insert(j, name);
                assert(r.deep_view() =~= before.insert(j as int, n0));
                proof {
                    lemma_names_inserted(before, j as int, n0);
                }
            }
            proof {
                assert forall|n: Seq<char>| #[trigger]
                    r.deep_view().contains(n) <==> buffered(now, n) by {
                    lemma_buffered_push(seen, self@[i as int], n);
                    lemma_insert_contains(before, j as int, n0, n);
                    assert(before.contains(n) <==> buffered(seen, n));
                }
            }
            i = i + 1;
        }
        assert(self@.subrange(0, i as int) =~= self@);
        r
    }

    /// Run a parsed range query: filter, group by series, keep the latest per
    /// step bucket. Returns series in first-seen order plus whether the
    /// requested start predates the buffer (partial answer).
    pub fn query(&self, q: &RangeQuery) -> (r: Result<QueryOutcome, QueryError>)
        requires
            q.step_micros > 0 || hits(self@, q.deep_view()).len() == 0,
        ensures
            ({
                let want = answer(self@, q.deep_view());
                match r {
                    Ok(out) => {
                        &&& total_points(want) <= MAX_POINTS
                        &&& out.series.deep_view() == want
                        &&& out.clamped == partial(self@, q.deep_view())
                    },
                    Err(e) => {
                        &&& total_points(want) > MAX_POINTS
                        &&& e@ == too_many_points(total_points(want))
                    },
                }
            }),
    {
        let mut groups: Vec<Series> = Vec::new();
        let mut count: usize = 0;
        let mut i: usize = 0;
        let ghost qv = q.deep_view();
        let ghost all = self@;
        proof {
            assert(groups.deep_view() =~= answer(all.subrange(0, 0), qv));
        }
        while i < self.inner.len()
            invariant
                i <= self.inner.len(),
                count <= i,
                all == self@,
                qv == q.deep_view(),
                q.step_micros > 0 || hits(all, qv).len() == 0,
                groups.deep_view() == answer(all.subrange(0, i as int), qv),
                count == total_points(groups.deep_view()),
            decreases self.inner.len() - i,
        {
            let s = &self.inner[i];
            let ghost sv = all[i as int];
            let ghost part = all.subrange(0, i as int);
            let ghost next = all.subrange(0, i + 1);
            assert(sv == s.deep_view());
            assert(next.drop_last() =~= part && next.last() == sv);
            if s.ts_micros >= q.start_micros && s.ts_micros <= q.end_micros && s.name == q.name
                && carries(&s.labels, &q.matchers) {
                assert(selected(qv, sv));
                proof {
                    lemma_hits_nonempty(all, qv, i as int);
                }
                let bucket: u64 = (s.ts_micros - q.start_micros) / q.step_micros;
                assert(bucket == bucket_of(qv, sv));
                let fresh = add_point(&mut groups, s, bucket, Ghost(hits(part, qv)), Ghost(qv));
                if fresh {
                    count = count + 1;
                }
            }
            i = i + 1;
        }
        assert(all.subrange(0, i as int) =~= all);
        if count > MAX_POINTS {
            return Err(QueryError::new(too_many_points_text(count)));
        }
        Ok(
            QueryOutcome {
                series: groups,
                clamped: self.inner.len() > 0 && self.inner[0].ts_micros > q.start_micros,
            },
        )
    }
}

}
