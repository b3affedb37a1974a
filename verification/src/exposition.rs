//! Reading Prometheus exposition text with the `prometheus-parse` crate.
use vstd::prelude::*;
use vstd::multiset::Multiset;
use prometheus_parse::Value;
use crate::labels;
use crate::numbers;
use crate::scrape::{Bound, Reading, Sample};
use crate::scrape::{BoundView, ReadingView, SampleView};

verus! {

/// What the text says of one sample: its labels as a map, and its numbers up to
/// the bits of a NaN.
pub struct Entry {
    pub metric: Seq<char>,
    pub labels: Map<Seq<char>, Seq<char>>,
    pub value: ReadingView,
}

/// The step with its numbers up to the bits of a NaN.
pub open spec fn bound_entry(b: BoundView) -> BoundView {
    BoundView {
        at: numbers::canonical(b.at),
        text: b.text,
        count: numbers::canonical(b.count),
    }
}

/// The value with its numbers up to the bits of a NaN.
pub open spec fn value_entry(v: ReadingView) -> ReadingView {
    match v {
        ReadingView::Counter(n) => ReadingView::Counter(numbers::canonical(n)),
        ReadingView::Gauge(n) => ReadingView::Gauge(numbers::canonical(n)),
        ReadingView::Untyped(n) => ReadingView::Untyped(numbers::canonical(n)),
        ReadingView::Histogram(b) => ReadingView::Histogram(
            b.map_values(|x: BoundView| bound_entry(x)),
        ),
        ReadingView::Summary(b) => ReadingView::Summary(
            b.map_values(|x: BoundView| bound_entry(x)),
        ),
    }
}

/// What the text says of the sample `s`.
pub open spec fn entry(s: SampleView) -> Entry {
    Entry {
        metric: s.metric,
        labels: labels::as_map(s.labels),
        value: value_entry(s.value),
    }
}

/// What the text says of each of `samples`.
pub open spec fn entries(samples: Seq<SampleView>) -> Seq<Entry> {
    samples.map_values(|s: SampleView| entry(s))
}

/// The entries of an exposition text as `prometheus-parse` reads it: first the
/// plain samples, in the order of the text, then the histograms and summaries,
/// which have no order.
pub uninterp spec fn exposition(body: Seq<char>) -> (Seq<Entry>, Multiset<Entry>);

/// The entry is a plain sample, neither a histogram nor a summary.
pub open spec fn is_plain(e: Entry) -> bool {
    !(e.value is Histogram) && !(e.value is Summary)
}

/// `found` in some order: the plain samples in the order of the text, and the
/// others behind them in any order.
pub open spec fn lists(all: Seq<Entry>, found: (Seq<Entry>, Multiset<Entry>)) -> bool {
    let n = found.0.len() as int;
    &&& n <= all.len()
    &&& all.subrange(0, n) == found.0
    &&& all.subrange(n, all.len() as int).to_multiset() == found.1
    &&& forall|i: int| 0 <= i < all.len() ==> (is_plain(#[trigger] all[i]) <==> i < n)
}

/// `samples` is a reading of an exposition with these entries, and no label key
/// comes twice in a sample.
pub open spec fn reads(samples: Seq<SampleView>, found: (Seq<Entry>, Multiset<Entry>)) -> bool {
    &&& lists(entries(samples), found)
    &&& forall|i: int|
        0 <= i < samples.len() ==> labels::distinct_keys((#[trigger] samples[i]).labels)
}

/// A parsed exposition of the `prometheus-parse` crate.
#[verifier::external_type_specification]
#[verifier::external_body]
pub struct ExScrape(prometheus_parse::Scrape);

/// The samples that a parsed exposition holds, in its own order.
pub uninterp spec fn held(scrape: prometheus_parse::Scrape) -> Seq<Entry>;

/// `prometheus_parse::Scrape::parse` on the lines of `body`. It fails only
/// where a line is an error, and no line of a text is one. What it finds in the
/// text is named, not stated: the plain samples come in the order of the text,
/// histograms and summaries behind them in no fixed order. Sample times, which
/// depend on the clock, are left out.
#[verifier::external_body]
fn parse_lines(body: &str) -> (r: Result<prometheus_parse::Scrape, String>)
    ensures
        r is Ok,
        lists(held(r->Ok_0), exposition(body@)),
{
    prometheus_parse::Scrape::parse(body.lines().map(|line| Ok(line.to_string()))).map_err(
        |e| e.to_string(),
    )
}

/// The length of `prometheus_parse::Scrape::samples`: how many samples were
/// found.
#[verifier::external_body]
fn sample_count(scrape: &prometheus_parse::Scrape) -> (r: usize)
    ensures
        r == held(*scrape).len(),
{
    scrape.samples.len()
}

/// Name and labels of one of `prometheus_parse::Scrape::samples`. The labels
/// come out of a hash map: in no fixed order, and each key once.
#[verifier::external_body]
fn head_at(scrape: &prometheus_parse::Scrape, i: usize) -> (r: (String, Vec<(String, String)>))
    requires
        i < held(*scrape).len(),
    ensures
        r.0@ == held(*scrape)[i as int].metric,
        labels::as_map(r.1.deep_view()) == held(*scrape)[i as int].labels,
        labels::distinct_keys(r.1.deep_view()),
{
    let s = &scrape.samples[i];
    (s.metric.clone(), s.labels.iter().map(|(k, v)| (k.clone(), v.clone())).collect())
}

/// The value of one of `prometheus_parse::Scrape::samples`, its numbers as
/// their bits and the bounds of its steps also as they are printed. Which bits
/// a NaN has is not stated.
#[verifier::external_body]
fn value_at(scrape: &prometheus_parse::Scrape, i: usize) -> (r: Reading)
    requires
        i < held(*scrape).len(),
    ensures
        value_entry(r.deep_view()) == held(*scrape)[i as int].value,
{
    match &scrape.samples[i].value {
        Value::Counter(v) => Reading::Counter(v.to_bits()),
        Value::Gauge(v) => Reading::Gauge(v.to_bits()),
        Value::Untyped(v) => Reading::Untyped(v.to_bits()),
        Value::Histogram(b) => Reading::Histogram(b.iter().map(|b| Bound {
            at: b.less_than.to_bits(), text: b.less_than.to_string(), count: b.count.to_bits(),
        }).collect()),
        Value::Summary(q) => Reading::Summary(q.iter().map(|q| Bound {
            at: q.quantile.to_bits(), text: q.quantile.to_string(), count: q.count.to_bits(),
        }).collect()),
    }
}

/// The samples of a parsed exposition.
fn read_samples(scrape: &prometheus_parse::Scrape) -> (r: Vec<Sample>)
    ensures
        entries(r.deep_view()) == held(*scrape),
        forall|i: int|
            0 <= i < r.len() ==> labels::distinct_keys((#[trigger] r.deep_view()[i]).labels),
{
    let n: usize = sample_count(scrape);
    let mut r: Vec<Sample> = Vec::new();
    let mut i: usize = 0;
    while i < n
        invariant
            i <= n,
            n == held(*scrape).len(),
            r.len() == i,
            forall|k: int|
                0 <= k < i ==> entry((#[trigger] r@[k]).deep_view()) == held(*scrape)[k]
                    && labels::distinct_keys(r@[k].labels.deep_view()),
        decreases n - i,
    {
        let head = head_at(scrape, i);
        r.push(Sample { metric: head.0, labels: head.1, value: value_at(scrape, i) });
        i = i + 1;
    }
    assert(entries(r.deep_view()) =~= held(*scrape));
    r
}

/// Parse exposition text. Unknown shapes are skipped by the parser itself.
pub fn parse_body(body: &str) -> (r: Result<Vec<Sample>, String>)
    ensures
        r is Ok,
        reads(r->Ok_0.deep_view(), exposition(body@)),
{
    match parse_lines(body) {
        Ok(scrape) => Ok(read_samples(&scrape)),
        Err(e) => Err(e),
    }
}

/// An entry tells the sample: its name, the value of each of its labels, and its
/// numbers but for the bits of a NaN.
pub proof fn law_entry(s: SampleView, i: int, n: u64)
    requires
        labels::distinct_keys(s.labels),
    ensures
        entry(s).metric == s.metric,
        0 <= i < s.labels.len() ==> entry(s).labels.contains_key(s.labels[i].0)
            && entry(s).labels[s.labels[i].0] == s.labels[i].1,
        s.value == ReadingView::Counter(n) && n < 0x7FF0_0000_0000_0000 ==> entry(s).value
            == ReadingView::Counter(n),
        s.value == ReadingView::Gauge(n) && n < 0x7FF0_0000_0000_0000 ==> entry(s).value
            == ReadingView::Gauge(n),
        s.value == ReadingView::Untyped(n) && n < 0x7FF0_0000_0000_0000 ==> entry(s).value
            == ReadingView::Untyped(n),
{
    if 0 <= i < s.labels.len() {
        assert(s.labels.contains(s.labels[i]));
        labels::lemma_as_map(s.labels, s.labels[i]);
    }
}

}
