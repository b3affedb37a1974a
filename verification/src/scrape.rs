//! Scrape pipeline: exposition text, parse, allowlist, plan.
//!
//! * Gauge samples are stored as gauges, everything else as counters.
//! * Histogram buckets arrive aggregated as one sample; each bucket is stored
//!   as `<base>_bucket` with an `le` label. `_sum` and `_count` arrive as plain
//!   samples and are stored verbatim.
//! * Summary quantiles are stored as `<base>` with a `quantile` label.
//! * Every stored sample gains a `scrape_target` label.
//!
//! Values are doubles held as their 64 bits.
use vstd::prelude::*;
use vstd::string::*;
use crate::labels;
use crate::numbers;
use crate::text;

verus! {

/// Label injected on every stored sample.
pub const SCRAPE_TARGET_LABEL: &'static str = "scrape_target";

/// One step of a histogram or summary.
#[derive(Debug, Clone)]
pub struct Bound {
    /// Bits of the upper bound or the quantile.
    pub at: u64,
    /// Shortest decimal form of the upper bound or the quantile.
    pub text: String,
    /// Bits of the count.
    pub count: u64,
}

/// The value of a parsed sample.
#[derive(Debug, Clone)]
pub enum Reading {
    /// A counter.
    Counter(u64),
    /// A gauge.
    Gauge(u64),
    /// A sample without a declared type.
    Untyped(u64),
    /// The buckets of a histogram.
    Histogram(Vec<Bound>),
    /// The quantiles of a summary.
    Summary(Vec<Bound>),
}

/// One sample of an exposition.
#[derive(Debug, Clone)]
pub struct Sample {
    /// Metric name.
    pub metric: String,
    /// Label pairs, in no particular order.
    pub labels: Vec<(String, String)>,
    /// What was measured.
    pub value: Reading,
}

/// What a [`Bound`] holds.
pub struct BoundView {
    pub at: u64,
    pub text: Seq<char>,
    pub count: u64,
}

/// What a [`Reading`] holds.
pub enum ReadingView {
    Counter(u64),
    Gauge(u64),
    Untyped(u64),
    Histogram(Seq<BoundView>),
    Summary(Seq<BoundView>),
}

/// What a [`Sample`] holds.
pub struct SampleView {
    pub metric: Seq<char>,
    pub labels: Seq<labels::Pair>,
    pub value: ReadingView,
}

impl DeepView for Bound {
    type V = BoundView;

    open spec fn deep_view(&self) -> BoundView {
        BoundView { at: self.at, text: self.text@, count: self.count }
    }
}

impl DeepView for Reading {
    type V = ReadingView;

    open spec fn deep_view(&self) -> ReadingView {
        match self {
            Reading::Counter(v) => ReadingView::Counter(*v),
            Reading::Gauge(v) => ReadingView::Gauge(*v),
            Reading::Untyped(v) => ReadingView::Untyped(*v),
            Reading::Histogram(b) => ReadingView::Histogram(b.deep_view()),
            Reading::Summary(b) => ReadingView::Summary(b.deep_view()),
        }
    }
}

impl DeepView for Sample {
    type V = SampleView;

    open spec fn deep_view(&self) -> SampleView {
        SampleView {
            metric: self.metric@,
            labels: self.labels.deep_view(),
            value: self.value.deep_view(),
        }
    }
}

/// Storage flavour of a sample.
#[derive(Debug, Clone, Copy, PartialEq, Eq, Structural)]
pub enum MetricType {
    /// Monotonic counter.
    Counter,
    /// Gauge.
    Gauge,
    /// Distribution.
    Histogram,
}

/// Outcome of one target scrape (feeds the `collector_*` self series).
#[derive(Debug, Clone, Copy, PartialEq, Eq, Structural)]
pub enum ScrapeStatus {
    /// Fetched, parsed, stored.
    Success,
    /// Transport, non-2xx, oversize or non-UTF8 body.
    FetchError,
    /// Exposition unparsable.
    ParseError,
}

/// The label value of a status.
pub open spec fn status_text(status: ScrapeStatus) -> Seq<char> {
    match status {
        ScrapeStatus::Success => "ok"@,
        ScrapeStatus::FetchError => "fetch_error"@,
        ScrapeStatus::ParseError => "parse_error"@,
    }
}

impl ScrapeStatus {
    /// Stable label value for `collector_scrape_total{status}`.
    #[must_use]
    pub fn as_str(self) -> (r: &'static str)
        ensures
            r@ == status_text(self),
    {
        match self {
            ScrapeStatus::Success => "ok",
            ScrapeStatus::FetchError => "fetch_error",
            ScrapeStatus::ParseError => "parse_error",
        }
    }
}

/// Fetch failures (counted per target, never fatal to the loop).
#[derive(Debug)]
pub enum FetchError {
    /// Transport or non-2xx status.
    Request(String),
    /// Body exceeds the configured cap.
    TooLarge(usize),
    /// Body is not UTF-8 text.
    InvalidUtf8,
}

impl FetchError {
    /// What went wrong.
    pub fn message(&self) -> (r: String)
        ensures
            r@ == match self {
                FetchError::Request(why) => "request failed: "@ + why@,
                FetchError::TooLarge(max) => "body exceeds "@ + text::decimal(*max as nat)
                    + " bytes"@,
                FetchError::InvalidUtf8 => "body is not valid UTF-8"@,
            },
    {
        match self {
            FetchError::Request(why) => text::cat("request failed: ", why.as_str()),
            FetchError::TooLarge(max) => text::cat3(
                "body exceeds ",
                text::number(*max as u128).as_str(),
                " bytes",
            ),
            FetchError::InvalidUtf8 => "body is not valid UTF-8".to_string(),
        }
    }
}

/// One storable observation derived from exposition.
#[derive(Debug, Clone)]
pub struct PlannedSample {
    /// Series name after histogram/summary decomposition.
    pub name: String,
    /// Storage flavour (only Counter/Gauge are ever produced here).
    pub kind: MetricType,
    /// Bits of the sample value.
    pub value: u64,
    /// Original labels plus `scrape_target`.
    pub labels: Vec<(String, String)>,
}

/// What a [`PlannedSample`] holds.
#[verifier::ext_equal]
pub struct PlannedView {
    pub name: Seq<char>,
    pub kind: MetricType,
    pub value: u64,
    pub labels: Seq<labels::Pair>,
}

impl DeepView for PlannedSample {
    type V = PlannedView;

    open spec fn deep_view(&self) -> PlannedView {
        PlannedView {
            name: self.name@,
            kind: self.kind,
            value: self.value,
            labels: self.labels.deep_view(),
        }
    }
}

/// The name is one of the collector's own: never stored from scraped input.
pub open spec fn reserved(name: Seq<char>) -> bool {
    name == "tonggeret_dropped_total"@ || "collector_"@.is_prefix_of(name)
}

/// The name that the sample is stored under: the parts of a histogram go under
/// `<base>_bucket`.
pub open spec fn stored_name(sample: SampleView) -> Seq<char> {
    if sample.value is Histogram {
        sample.metric + "_bucket"@
    } else {
        sample.metric
    }
}

/// The sample may be stored: neither its own name nor the one it is stored under
/// is reserved, and one of the allowed prefixes begins its own name.
pub open spec fn storable(sample: SampleView, allow: Seq<Seq<char>>) -> bool {
    &&& !reserved(sample.metric)
    &&& !reserved(stored_name(sample))
    &&& exists|i: int| 0 <= i < allow.len() && (#[trigger] allow[i]).is_prefix_of(sample.metric)
}

/// The sample's labels and `scrape_target`, ordered by key.
pub open spec fn base_labels(target: Seq<char>, pairs: Seq<labels::Pair>) -> Seq<labels::Pair> {
    labels::sorted_by_key(pairs.push((SCRAPE_TARGET_LABEL@, target)))
}

/// What one step of a histogram or summary is stored as.
pub open spec fn step_sample(
    name: Seq<char>,
    base: Seq<labels::Pair>,
    key: Seq<char>,
    b: BoundView,
) -> PlannedView {
    PlannedView {
        name,
        kind: MetricType::Counter,
        value: b.count,
        labels: labels::sorted_by_key(base.push((key, numbers::spelling(b.at, b.text)))),
    }
}

/// What `sample` is stored as.
pub open spec fn expanded(target: Seq<char>, sample: SampleView) -> Seq<PlannedView> {
    let base = base_labels(target, sample.labels);
    let name = sample.metric;
    match sample.value {
        ReadingView::Gauge(v) => seq![
            PlannedView { name, kind: MetricType::Gauge, value: v, labels: base },
        ],
        ReadingView::Counter(v) => seq![
            PlannedView { name, kind: MetricType::Counter, value: v, labels: base },
        ],
        ReadingView::Untyped(v) => seq![
            PlannedView { name, kind: MetricType::Counter, value: v, labels: base },
        ],
        ReadingView::Histogram(buckets) => buckets.map_values(
            |b: BoundView| step_sample(stored_name(sample), base, "le"@, b),
        ),
        ReadingView::Summary(quantiles) => quantiles.map_values(
            |b: BoundView| step_sample(name, base, "quantile"@, b),
        ),
    }
}

/// What the storable ones of `samples` are stored as, in order.
pub open spec fn candidates(
    target: Seq<char>,
    samples: Seq<SampleView>,
    allow: Seq<Seq<char>>,
) -> Seq<PlannedView>
    decreases samples.len(),
{
    if samples.len() == 0 {
        Seq::empty()
    } else {
        let before = candidates(target, samples.drop_last(), allow);
        if storable(samples.last(), allow) {
            before + expanded(target, samples.last())
        } else {
            before
        }
    }
}

/// The first `cap` of `all`.
pub open spec fn first_n(all: Seq<PlannedView>, cap: nat) -> Seq<PlannedView> {
    if all.len() <= cap {
        all
    } else {
        all.subrange(0, cap as int)
    }
}

/// How many of `all` are over the cap, as far as a `usize` counts.
pub open spec fn over_cap(all: Seq<PlannedView>, cap: nat) -> nat {
    if all.len() <= cap {
        0
    } else if all.len() - cap <= usize::MAX {
        (all.len() - cap) as nat
    } else {
        usize::MAX as nat
    }
}

/// Whether some text of `prefixes` begins `name`.
fn starts_with_any(name: &str, prefixes: &Vec<String>) -> (r: bool)
    ensures
        r == exists|i: int|
            0 <= i < prefixes.deep_view().len() && (#[trigger] prefixes.deep_view()[i]).is_prefix_of(
                name@,
            ),
{
    let mut i: usize = 0;
    while i < prefixes.len()
        invariant
            i <= prefixes.len(),
            forall|k: int| 0 <= k < i ==> !(#[trigger] prefixes.deep_view()[k]).is_prefix_of(name@),
        decreases prefixes.len() - i,
    {
        if text::starts_with(name, prefixes[i].as_str()) {
            assert(prefixes.deep_view()[i as int].is_prefix_of(name@));
            return true;
        }
        i = i + 1;
    }
    false
}

/// Whether the name is one of the collector's own.
fn is_reserved(name: &str) -> (r: bool)
    ensures
        r == reserved(name@),
{
    text::same(name, "tonggeret_dropped_total") || text::starts_with(name, "collector_")
}

/// The name that the sample is stored under.
fn stored_name_of(sample: &Sample) -> (r: String)
    ensures
        r@ == stored_name(sample.deep_view()),
{
    match &sample.value {
        Reading::Histogram(_) => text::cat(sample.metric.as_str(), "_bucket"),
        _ => sample.metric.clone(),
    }
}

/// Whether the sample may be stored.
fn is_storable(sample: &Sample, allow: &Vec<String>) -> (r: bool)
    ensures
        r == storable(sample.deep_view(), allow.deep_view()),
{
    !is_reserved(sample.metric.as_str()) && !is_reserved(stored_name_of(sample).as_str())
        && starts_with_any(sample.metric.as_str(), allow)
}

/// The steps of a histogram or summary as samples of their own.
fn expand_steps(
    name: &str,
    base: &Vec<(String, String)>,
    key: &str,
    steps: &Vec<Bound>,
) -> (r: Vec<PlannedSample>)
    ensures
        r.deep_view() == steps.deep_view().map_values(
            |b: BoundView| step_sample(name@, base.deep_view(), key@, b),
        ),
{
    let mut r: Vec<PlannedSample> = Vec::new();
    let mut i: usize = 0;
    while i < steps.len()
        invariant
            i <= steps.len(),
            r.len() == i,
            forall|k: int|
                0 <= k < i ==> (#[trigger] r@[k]).deep_view() == step_sample(
                    name@,
                    base.deep_view(),
                    key@,
                    steps@[k].deep_view(),
                ),
        decreases steps.len() - i,
    {
        let mut pairs = labels::clone_labels(base);
        let value = numbers::format_value(steps[i].at, steps[i].text.as_str());
        let ghost pair = (key@, value@);
        pairs.push((key.to_string(), value));
        assert(pairs.deep_view() =~= base.deep_view().push(pair));
        let pairs = labels::sort_labels(&pairs);
        r.push(
            PlannedSample {
                name: name.to_string(),
                kind: MetricType::Counter,
                value: steps[i].count,
                labels: pairs,
            },
        );
        i = i + 1;
    }
    assert(r.deep_view() =~= steps.deep_view().map_values(
        |b: BoundView| step_sample(name@, base.deep_view(), key@, b),
    ));
    r
}

/// Expand one parsed sample, injecting the `scrape_target` label.
///
/// Label pairs are sorted by key: every sample that shares a series name must
/// present its keys in the same order, whatever order they were parsed in.
pub fn expand_sample(target: &str, sample: &Sample) -> (r: Vec<PlannedSample>)
    ensures
        r.deep_view() == expanded(target@, sample.deep_view()),
{
    let mut pairs = labels::clone_labels(&sample.labels);
    pairs.push((SCRAPE_TARGET_LABEL.to_string(), target.to_string()));
    assert(pairs.deep_view() =~= sample.labels.deep_view().push((SCRAPE_TARGET_LABEL@, target@)));
    let base = labels::sort_labels(&pairs);
    match &sample.value {
        Reading::Gauge(v) => one_sample(&sample.metric, MetricType::Gauge, *v, base),
        Reading::Counter(v) => one_sample(&sample.metric, MetricType::Counter, *v, base),
        Reading::Untyped(v) => one_sample(&sample.metric, MetricType::Counter, *v, base),
        Reading::Histogram(buckets) => {
            let name = stored_name_of(sample);
            expand_steps(name.as_str(), &base, "le", buckets)
        },
        Reading::Summary(quantiles) => {
            expand_steps(sample.metric.as_str(), &base, "quantile", quantiles)
        },
    }
}

/// One planned sample, alone.
fn one_sample(name: &String, kind: MetricType, value: u64, pairs: Vec<(String, String)>) -> (r: Vec<
    PlannedSample,
>)
    ensures
        r.deep_view() == seq![
            PlannedView { name: name@, kind, value, labels: pairs.deep_view() },
        ],
{
    let ghost want = seq![PlannedView { name: name@, kind, value, labels: pairs.deep_view() }];
    let mut r: Vec<PlannedSample> = Vec::new();
    r.push(PlannedSample { name: name.clone(), kind, value, labels: pairs });
    assert(r.deep_view() =~= want);
    r
}

/// Map samples to storable observations: allowlist on the scraped name, nothing
/// under a name of the collector's own, inject the target label, decompose histograms and summaries, enforce the
/// cap.
///
/// Returns the stored samples and how many were dropped over the cap. Samples
/// that the allowlist leaves out are neither stored nor counted.
#[must_use]
pub fn plan_samples(target: &str, samples: &Vec<Sample>, allow: &Vec<String>, cap: usize) -> (r: (
    Vec<PlannedSample>,
    usize,
))
    ensures
        ({
            let all = candidates(target@, samples.deep_view(), allow.deep_view());
            &&& r.0.deep_view() == first_n(all, cap as nat)
            &&& r.1 == over_cap(all, cap as nat)
        }),
{
    let mut out: Vec<PlannedSample> = Vec::new();
    let mut dropped: usize = 0;
    let mut i: usize = 0;
    let ghost sv = samples.deep_view();
    let ghost av = allow.deep_view();
    assert(out.deep_view() =~= Seq::empty());
    while i < samples.len()
        invariant
            i <= samples.len(),
            sv == samples.deep_view(),
            av == allow.deep_view(),
            out.deep_view() == first_n(
                candidates(target@, sv.subrange(0, i as int), av),
                cap as nat,
            ),
            dropped == over_cap(candidates(target@, sv.subrange(0, i as int), av), cap as nat),
        decreases samples.len() - i,
    {
        let ghost before = candidates(target@, sv.subrange(0, i as int), av);
        let ghost next = sv.subrange(0, i + 1);
        assert(next.drop_last() =~= sv.subrange(0, i as int));
        assert(next.last() == samples@[i as int].deep_view());
        if is_storable(&samples[i], allow) {
            let steps = expand_sample(target, &samples[i]);
            let ghost more = steps.deep_view();
            assert(before + more.subrange(0, 0) =~= before);
            let mut j: usize = 0;
            while j < steps.len()
                invariant
                    j <= steps.len(),
                    more == steps.deep_view(),
                    out.deep_view() == first_n(before + more.subrange(0, j as int), cap as nat),
                    dropped == over_cap(before + more.subrange(0, j as int), cap as nat),
                decreases steps.len() - j,
            {
                let ghost held = out.deep_view();
                let ghost sum = before + more.subrange(0, j as int);
                assert(before + more.subrange(0, j + 1) =~= sum.push(more[j as int]));
                assert(held.len() == out.len());
                if out.len() >= cap {
                    dropped = dropped.saturating_add(1);
                    assert(first_n(sum.push(more[j as int]), cap as nat) =~= held);
                } else {
                    out.push(copy_planned(&steps[j]));
                    assert(out.deep_view() =~= held.push(more[j as int]));
                    assert(sum.len() < cap);
                }
                j = j + 1;
            }
            assert(more.subrange(0, j as int) =~= more);
        }
        i = i + 1;
    }
    assert(sv.subrange(0, i as int) =~= sv);
    (out, dropped)
}

/// A copy of `s`.
fn copy_planned(s: &PlannedSample) -> (r: PlannedSample)
    ensures
        r.deep_view() == s.deep_view(),
{
    PlannedSample {
        name: s.name.clone(),
        kind: s.kind,
        value: s.value,
        labels: labels::clone_labels(&s.labels),
    }
}

}
