//! What holds of everything that a scrape stores, over the plans of
//! [`crate::scrape::plan_samples`].
use vstd::prelude::*;
use vstd::string::*;
use vstd::multiset::Multiset;
use crate::exposition;
use crate::labels;
use crate::numbers;
use crate::scrape;
use crate::scrape::{Bound, MetricType, PlannedSample, Reading, Sample, ScrapeStatus};
use crate::scrape::{BoundView, PlannedView, ReadingView, SampleView};

verus! {

/// `p` comes from one of `samples` that may be stored.
pub open spec fn comes_from(
    target: Seq<char>,
    samples: Seq<SampleView>,
    allow: Seq<Seq<char>>,
    p: PlannedView,
) -> bool {
    exists|i: int|
        0 <= i < samples.len() && scrape::storable(#[trigger] samples[i], allow)
            && scrape::expanded(target, samples[i]).contains(p)
}

/// What is stored comes from storable samples, and from nothing else; and every
/// expansion of a storable sample is stored or counted as over the cap.
pub proof fn law_candidates(
    target: Seq<char>,
    samples: Seq<SampleView>,
    allow: Seq<Seq<char>>,
    p: PlannedView,
)
    ensures
        scrape::candidates(target, samples, allow).contains(p) <==> comes_from(
            target,
            samples,
            allow,
            p,
        ),
    decreases samples.len(),
{
    if samples.len() > 0 {
        let init = samples.drop_last();
        let last = samples.last();
        law_candidates(target, init, allow, p);
        let before = scrape::candidates(target, init, allow);
        let more = scrape::expanded(target, last);
        let all = scrape::candidates(target, samples, allow);
        if comes_from(target, init, allow, p) {
            let i = choose|i: int|
                0 <= i < init.len() && scrape::storable(#[trigger] init[i], allow)
                    && scrape::expanded(target, init[i]).contains(p);
            assert(samples[i] == init[i]);
            let k = choose|k: int| 0 <= k < before.len() && before[k] == p;
            assert(all[k] == p);
        }
        if scrape::storable(last, allow) && more.contains(p) {
            assert(samples[samples.len() - 1] == last);
            let k = choose|k: int| 0 <= k < more.len() && more[k] == p;
            assert(all[before.len() + k] == p);
        }
        if all.contains(p) && !before.contains(p) {
            let k = choose|k: int| 0 <= k < all.len() && all[k] == p;
            if k < before.len() {
                assert(before[k] == p);
            } else {
                assert(more[k - before.len()] == p);
            }
            assert(samples[samples.len() - 1] == last);
        }
        if comes_from(target, samples, allow, p) && !comes_from(target, init, allow, p) {
            let i = choose|i: int|
                0 <= i < samples.len() && scrape::storable(#[trigger] samples[i], allow)
                    && scrape::expanded(target, samples[i]).contains(p);
            if i < init.len() {
                assert(init[i] == samples[i]);
            }
        }
    }
}

proof fn lemma_sorted_contains(s: Seq<labels::Pair>, p: labels::Pair)
    ensures
        labels::sorted_by_key(s).contains(p) <==> s.contains(p),
{
    broadcast use vstd::seq_lib::group_to_multiset_ensures;

    labels::law_sorted_by_key(s);
    assert(labels::sorted_by_key(s).to_multiset().count(p) == s.to_multiset().count(p));
}

proof fn lemma_planned_labels(target: Seq<char>, sample: SampleView, p: PlannedView)
    requires
        scrape::expanded(target, sample).contains(p),
    ensures
        ({
            let base = scrape::base_labels(target, sample.labels);
            p.labels == base || exists|extra: labels::Pair|
                p.labels == #[trigger] labels::sorted_by_key(base.push(extra))
        }),
{
    let base = scrape::base_labels(target, sample.labels);
    let all = scrape::expanded(target, sample);
    let k = choose|k: int| 0 <= k < all.len() && all[k] == p;
    match sample.value {
        ReadingView::Histogram(steps) => {
            let extra = ("le"@, numbers::spelling(steps[k].at, steps[k].text));
            assert(p.labels == labels::sorted_by_key(base.push(extra)));
        },
        ReadingView::Summary(steps) => {
            let extra = ("quantile"@, numbers::spelling(steps[k].at, steps[k].text));
            assert(p.labels == labels::sorted_by_key(base.push(extra)));
        },
        _ => {},
    }
}

/// The labels of every stored sample are ordered by key, the added
/// `scrape_target`, `le` and `quantile` among them.
pub proof fn law_labels_sorted(target: Seq<char>, sample: SampleView, p: PlannedView)
    requires
        scrape::expanded(target, sample).contains(p),
    ensures
        labels::keys_ordered(p.labels),
{
    let base = scrape::base_labels(target, sample.labels);
    lemma_planned_labels(target, sample, p);
    labels::law_sorted_by_key(sample.labels.push((scrape::SCRAPE_TARGET_LABEL@, target)));
    if p.labels != base {
        let extra = choose|extra: labels::Pair| p.labels == #[trigger] labels::sorted_by_key(
            base.push(extra),
        );
        labels::law_sorted_by_key(base.push(extra));
    }
}

/// Every stored sample carries the target it was scraped from, and every label
/// that was scraped; it is a counter or a gauge, never a distribution.
pub proof fn law_labelled(target: Seq<char>, sample: SampleView, p: PlannedView)
    requires
        scrape::expanded(target, sample).contains(p),
    ensures
        labels::has_label(p.labels, scrape::SCRAPE_TARGET_LABEL@, target),
        forall|i: int| 0 <= i < sample.labels.len() ==> p.labels.contains(#[trigger] sample.labels[i]),
        p.kind != MetricType::Histogram,
        p.kind == MetricType::Gauge <==> sample.value is Gauge,
{
    let mine = (scrape::SCRAPE_TARGET_LABEL@, target);
    let pairs = sample.labels.push(mine);
    let base = scrape::base_labels(target, sample.labels);
    assert(pairs[sample.labels.len() as int] == mine);
    lemma_sorted_contains(pairs, mine);
    let all = scrape::expanded(target, sample);
    let k = choose|k: int| 0 <= k < all.len() && all[k] == p;
    lemma_planned_labels(target, sample, p);
    assert forall|x: labels::Pair| base.contains(x) implies p.labels.contains(x) by {
        if p.labels != base {
            let extra = choose|extra: labels::Pair| p.labels == #[trigger] labels::sorted_by_key(
                base.push(extra),
            );
            let i = choose|i: int| 0 <= i < base.len() && base[i] == x;
            assert(base.push(extra)[i] == x);
            lemma_sorted_contains(base.push(extra), x);
        }
    }
    assert forall|i: int| 0 <= i < sample.labels.len() implies p.labels.contains(
        #[trigger] sample.labels[i],
    ) by {
        assert(pairs[i] == sample.labels[i]);
        lemma_sorted_contains(pairs, sample.labels[i]);
    }
}

/// Nothing is made up: a stored sample bears the name of a scraped one, with
/// `_bucket` behind it where that is a histogram. So a series that a target does
/// not expose yields no rows, and no error.
pub proof fn law_series_names(target: Seq<char>, sample: SampleView, p: PlannedView)
    requires
        scrape::expanded(target, sample).contains(p),
    ensures
        p.name == scrape::stored_name(sample),
{
    let all = scrape::expanded(target, sample);
    let k = choose|k: int| 0 <= k < all.len() && all[k] == p;
}

/// The collector's own series are never stored from scraped input, whatever the
/// allowlist says: not the source's drop counter, and nothing under
/// `collector_`. And everything stored comes from a sample whose name begins
/// with an allowed prefix.
pub proof fn law_own_series_kept_apart(
    target: Seq<char>,
    samples: Seq<SampleView>,
    allow: Seq<Seq<char>>,
    p: PlannedView,
)
    requires
        scrape::candidates(target, samples, allow).contains(p),
    ensures
        p.name != "tonggeret_dropped_total"@,
        !"collector_"@.is_prefix_of(p.name),
        exists|i: int, k: int|
            0 <= i < samples.len() && 0 <= k < allow.len() && scrape::expanded(
                target,
                #[trigger] samples[i],
            ).contains(p) && (#[trigger] allow[k]).is_prefix_of(samples[i].metric),
{
    law_candidates(target, samples, allow, p);
    let i = choose|i: int|
        0 <= i < samples.len() && scrape::storable(#[trigger] samples[i], allow)
            && scrape::expanded(target, samples[i]).contains(p);
    law_series_names(target, samples[i], p);
    let k = choose|k: int|
        0 <= k < allow.len() && (#[trigger] allow[k]).is_prefix_of(samples[i].metric);
    assert(scrape::expanded(target, samples[i]).contains(p) && allow[k].is_prefix_of(
        samples[i].metric,
    ));
}

/// A plan never holds more than the cap, and what is not kept is counted.
pub proof fn law_cap(all: Seq<PlannedView>, cap: nat)
    requires
        all.len() - cap <= usize::MAX,
    ensures
        scrape::first_n(all, cap).len() <= cap,
        scrape::first_n(all, cap).is_prefix_of(all),
        scrape::first_n(all, cap).len() + scrape::over_cap(all, cap) == all.len(),
{
    assert(all.subrange(0, all.len() as int) =~= all);
}

/// Stored samples that have the same label keys, above all samples of one
/// series name, present them in one order: whatever order they were parsed in,
/// whichever target they are of, and whether a key was scraped or added.
pub proof fn law_key_order(
    target: Seq<char>,
    other: Seq<char>,
    a: SampleView,
    b: SampleView,
    p: PlannedView,
    q: PlannedView,
)
    requires
        scrape::expanded(target, a).contains(p),
        scrape::expanded(other, b).contains(q),
        labels::same_keys(p.labels, q.labels),
    ensures
        labels::keys(p.labels) == labels::keys(q.labels),
{
    law_labels_sorted(target, a, p);
    law_labels_sorted(other, b, q);
    labels::law_same_keys_same_order(p.labels, q.labels);
}

/// What is stored, up to the bits of a NaN.
pub open spec fn stored_entry(p: PlannedView) -> PlannedView {
    PlannedView { value: numbers::canonical(p.value), ..p }
}

/// What is stored of a sample depends on the text alone: two readings of one
/// entry are stored as the same samples.
pub proof fn law_text_decides(target: Seq<char>, a: SampleView, b: SampleView)
    requires
        labels::distinct_keys(a.labels),
        labels::distinct_keys(b.labels),
        exposition::entry(a) == exposition::entry(b),
    ensures
        scrape::expanded(target, a).map_values(|p: PlannedView| stored_entry(p))
            == scrape::expanded(target, b).map_values(|p: PlannedView| stored_entry(p)),
{
    labels::law_reading_order_irrelevant(
        a.labels,
        b.labels,
        (scrape::SCRAPE_TARGET_LABEL@, target),
    );
    let x = scrape::expanded(target, a).map_values(|p: PlannedView| stored_entry(p));
    let y = scrape::expanded(target, b).map_values(|p: PlannedView| stored_entry(p));
    match (a.value, b.value) {
        (ReadingView::Histogram(s), ReadingView::Histogram(t)) => {
            lemma_steps(s, t);
            assert(x =~= y);
        },
        (ReadingView::Summary(s), ReadingView::Summary(t)) => {
            lemma_steps(s, t);
            assert(x =~= y);
        },
        _ => {
            assert(x =~= y);
        },
    }
}

proof fn lemma_steps(s: Seq<BoundView>, t: Seq<BoundView>)
    requires
        s.map_values(|x: BoundView| exposition::bound_entry(x)) == t.map_values(
            |x: BoundView| exposition::bound_entry(x),
        ),
    ensures
        s.len() == t.len(),
        forall|i: int|
            0 <= i < s.len() ==> numbers::canonical((#[trigger] s[i]).count) == numbers::canonical(
                t[i].count,
            ) && numbers::spelling(s[i].at, s[i].text) == numbers::spelling(t[i].at, t[i].text),
{
    let u = s.map_values(|x: BoundView| exposition::bound_entry(x));
    let v = t.map_values(|x: BoundView| exposition::bound_entry(x));
    assert(u.len() == v.len());
    assert forall|i: int| 0 <= i < s.len() implies numbers::canonical((#[trigger] s[i]).count)
        == numbers::canonical(t[i].count) && numbers::spelling(s[i].at, s[i].text)
        == numbers::spelling(t[i].at, t[i].text) by {
        assert(u[i] == v[i]);
    }
}

/// What one sample adds to the store, up to the bits of a NaN.
pub open spec fn contribution(
    target: Seq<char>,
    sample: SampleView,
    allow: Seq<Seq<char>>,
) -> Seq<PlannedView> {
    if scrape::storable(sample, allow) {
        scrape::expanded(target, sample).map_values(|p: PlannedView| stored_entry(p))
    } else {
        Seq::empty()
    }
}

/// What `samples` add to the store, in no order.
spec fn bag(target: Seq<char>, samples: Seq<SampleView>, allow: Seq<Seq<char>>) -> Multiset<
    PlannedView,
>
    decreases samples.len(),
{
    if samples.len() == 0 {
        Multiset::empty()
    } else {
        bag(target, samples.drop_last(), allow).add(
            contribution(target, samples.last(), allow).to_multiset(),
        )
    }
}

proof fn lemma_bag(target: Seq<char>, samples: Seq<SampleView>, allow: Seq<Seq<char>>)
    ensures
        scrape::candidates(target, samples, allow).map_values(
            |p: PlannedView| stored_entry(p),
        ).to_multiset() == bag(target, samples, allow),
    decreases samples.len(),
{
    broadcast use vstd::seq_lib::group_to_multiset_ensures;

    let f = |p: PlannedView| stored_entry(p);
    if samples.len() == 0 {
        let none = scrape::candidates(target, samples, allow).map_values(f);
        assert(none =~= Seq::empty());
        assert(none.to_multiset() =~= Multiset::empty());
    } else {
        let init = samples.drop_last();
        lemma_bag(target, init, allow);
        let before = scrape::candidates(target, init, allow).map_values(f);
        let more = contribution(target, samples.last(), allow);
        let all = scrape::candidates(target, samples, allow).map_values(f);
        assert(all =~= before + more);
        vstd::seq_lib::lemma_multiset_commutative(before, more);
    }
}

proof fn lemma_bag_remove(
    target: Seq<char>,
    samples: Seq<SampleView>,
    allow: Seq<Seq<char>>,
    j: int,
)
    requires
        0 <= j < samples.len(),
    ensures
        bag(target, samples, allow) == bag(target, samples.remove(j), allow).add(
            contribution(target, samples[j], allow).to_multiset(),
        ),
    decreases samples.len(),
{
    let rest = samples.remove(j);
    if j == samples.len() - 1 {
        assert(rest =~= samples.drop_last());
    } else {
        let init = samples.drop_last();
        lemma_bag_remove(target, init, allow, j);
        assert(rest.drop_last() =~= init.remove(j));
        assert(rest.last() == samples.last());
        assert(bag(target, samples, allow) =~= bag(target, rest, allow).add(
            contribution(target, samples[j], allow).to_multiset(),
        ));
    }
}

proof fn lemma_same_bag(
    target: Seq<char>,
    a: Seq<SampleView>,
    b: Seq<SampleView>,
    allow: Seq<Seq<char>>,
)
    requires
        exposition::entries(a).to_multiset() == exposition::entries(b).to_multiset(),
        forall|i: int| 0 <= i < a.len() ==> labels::distinct_keys((#[trigger] a[i]).labels),
        forall|i: int| 0 <= i < b.len() ==> labels::distinct_keys((#[trigger] b[i]).labels),
    ensures
        bag(target, a, allow) == bag(target, b, allow),
    decreases a.len(),
{
    broadcast use vstd::seq_lib::group_to_multiset_ensures;

    let ea = exposition::entries(a);
    let eb = exposition::entries(b);
    assert(ea.len() == eb.len()) by {
        assert(ea.to_multiset().len() == ea.len());
        assert(eb.to_multiset().len() == eb.len());
    }
    if a.len() > 0 {
        let n = a.len() - 1;
        let e = exposition::entry(a[n]);
        assert(ea[n] == e);
        assert(ea.contains(e));
        assert(ea.to_multiset().count(e) > 0);
        assert(eb.contains(e));
        let j = choose|j: int| 0 <= j < eb.len() && eb[j] == e;
        assert(exposition::entry(b[j]) == e);
        let ra = a.remove(n);
        let rb = b.remove(j);
        assert(exposition::entries(ra) =~= ea.remove(n));
        assert(exposition::entries(rb) =~= eb.remove(j));
        assert(ea.remove(n).to_multiset() =~= ea.to_multiset().remove(e));
        assert(eb.remove(j).to_multiset() =~= eb.to_multiset().remove(e));
        assert forall|i: int| 0 <= i < ra.len() implies labels::distinct_keys(
            (#[trigger] ra[i]).labels,
        ) by {
            assert(ra[i] == a[i]);
        }
        assert forall|i: int| 0 <= i < rb.len() implies labels::distinct_keys(
            (#[trigger] rb[i]).labels,
        ) by {
            assert(rb[i] == if i < j {
                b[i]
            } else {
                b[i + 1]
            });
        }
        lemma_same_bag(target, ra, rb, allow);
        lemma_bag_remove(target, a, allow, n);
        lemma_bag_remove(target, b, allow, j);
        law_text_decides(target, a[n], b[j]);
    }
}

/// What a scrape stores depends on the text alone: two readings of one text
/// offer the same samples for storing, whatever order they were read in.
pub proof fn law_same_text_same_store(
    target: Seq<char>,
    body: Seq<char>,
    a: Seq<SampleView>,
    b: Seq<SampleView>,
    allow: Seq<Seq<char>>,
)
    requires
        exposition::reads(a, exposition::exposition(body)),
        exposition::reads(b, exposition::exposition(body)),
    ensures
        scrape::candidates(target, a, allow).map_values(
            |p: PlannedView| stored_entry(p),
        ).to_multiset() == scrape::candidates(target, b, allow).map_values(
            |p: PlannedView| stored_entry(p),
        ).to_multiset(),
{
    let n = exposition::exposition(body).0.len() as int;
    let ea = exposition::entries(a);
    let eb = exposition::entries(b);
    lemma_split_multiset(ea, n);
    lemma_split_multiset(eb, n);
    lemma_same_bag(target, a, b, allow);
    lemma_bag(target, a, allow);
    lemma_bag(target, b, allow);
}

proof fn lemma_split_multiset(s: Seq<exposition::Entry>, n: int)
    requires
        0 <= n <= s.len(),
    ensures
        s.to_multiset() == s.subrange(0, n).to_multiset().add(
            s.subrange(n, s.len() as int).to_multiset(),
        ),
{
    vstd::seq_lib::lemma_multiset_commutative(s.subrange(0, n), s.subrange(n, s.len() as int));
    assert(s.subrange(0, n) + s.subrange(n, s.len() as int) =~= s);
}

/// What is stored carries the scraped number: a counter, a gauge or a sample
/// without a type is stored once, under its own name, with its own value, and
/// with its own labels and the target beside them; gauges stay gauges, the
/// others are counters.
pub proof fn law_plain_value_kept(target: Seq<char>, sample: SampleView, v: u64)
    requires
        sample.value == ReadingView::Counter(v) || sample.value == ReadingView::Gauge(v)
            || sample.value == ReadingView::Untyped(v),
    ensures
        scrape::expanded(target, sample).len() == 1,
        scrape::expanded(target, sample)[0].value == v,
        scrape::expanded(target, sample)[0].name == sample.metric,
        scrape::expanded(target, sample)[0].labels.to_multiset() == sample.labels.push(
            ("scrape_target"@, target),
        ).to_multiset(),
        sample.value == ReadingView::Gauge(v) ==> scrape::expanded(target, sample)[0].kind
            == MetricType::Gauge,
        sample.value != ReadingView::Gauge(v) ==> scrape::expanded(target, sample)[0].kind
            == MetricType::Counter,
{
    let pairs = sample.labels.push(("scrape_target"@, target));
    labels::law_sorted_by_key(pairs);
}

/// A histogram is stored as one counter per bucket, in order: under
/// `<base>_bucket`, with the bucket's count, and with its bound under `le`
/// beside the sample's labels and the target.
pub proof fn law_histogram_steps_kept(
    target: Seq<char>,
    sample: SampleView,
    steps: Seq<BoundView>,
    k: int,
)
    requires
        sample.value == ReadingView::Histogram(steps),
        0 <= k < steps.len(),
    ensures
        scrape::expanded(target, sample).len() == steps.len(),
        scrape::expanded(target, sample)[k].value == steps[k].count,
        scrape::expanded(target, sample)[k].kind == MetricType::Counter,
        scrape::expanded(target, sample)[k].name == sample.metric + "_bucket"@,
        scrape::expanded(target, sample)[k].labels.to_multiset() == sample.labels.push(
            ("scrape_target"@, target),
        ).push(("le"@, numbers::spelling(steps[k].at, steps[k].text))).to_multiset(),
{
    lemma_step_labels(
        target,
        sample.labels,
        ("le"@, numbers::spelling(steps[k].at, steps[k].text)),
    );
}

/// A summary is stored as one counter per quantile, in order: under its own
/// name, with the quantile's count, and with the quantile under `quantile`
/// beside the sample's labels and the target.
pub proof fn law_summary_steps_kept(
    target: Seq<char>,
    sample: SampleView,
    steps: Seq<BoundView>,
    k: int,
)
    requires
        sample.value == ReadingView::Summary(steps),
        0 <= k < steps.len(),
    ensures
        scrape::expanded(target, sample).len() == steps.len(),
        scrape::expanded(target, sample)[k].value == steps[k].count,
        scrape::expanded(target, sample)[k].kind == MetricType::Counter,
        scrape::expanded(target, sample)[k].name == sample.metric,
        scrape::expanded(target, sample)[k].labels.to_multiset() == sample.labels.push(
            ("scrape_target"@, target),
        ).push(("quantile"@, numbers::spelling(steps[k].at, steps[k].text))).to_multiset(),
{
    lemma_step_labels(
        target,
        sample.labels,
        ("quantile"@, numbers::spelling(steps[k].at, steps[k].text)),
    );
}

proof fn lemma_step_labels(target: Seq<char>, pairs: Seq<labels::Pair>, extra: labels::Pair)
    ensures
        labels::sorted_by_key(scrape::base_labels(target, pairs).push(extra)).to_multiset()
            == pairs.push(("scrape_target"@, target)).push(extra).to_multiset(),
{
    broadcast use vstd::seq_lib::group_to_multiset_ensures;

    let all = pairs.push(("scrape_target"@, target));
    let base = scrape::base_labels(target, pairs);
    labels::law_sorted_by_key(all);
    labels::law_sorted_by_key(base.push(extra));
    assert(base.push(extra).to_multiset() =~= base.to_multiset().insert(extra));
    assert(all.push(extra).to_multiset() =~= all.to_multiset().insert(extra));
}

/// One sample more, one expansion more: it comes behind what was planned before
/// where an allowed prefix begins its name, it is not the source's drop counter,
/// and neither its name nor the name it is stored under begins with
/// `collector_`. Else nothing is added.
pub proof fn law_one_more_sample(
    target: Seq<char>,
    samples: Seq<SampleView>,
    allow: Seq<Seq<char>>,
    s: SampleView,
)
    ensures
        scrape::candidates(target, Seq::empty(), allow) == Seq::<PlannedView>::empty(),
        scrape::candidates(target, samples.push(s), allow) == if s.metric
            != "tonggeret_dropped_total"@ && !"collector_"@.is_prefix_of(s.metric) && !(s.value
            is Histogram && "collector_"@.is_prefix_of(s.metric + "_bucket"@)) && (exists|i: int|
            0 <= i < allow.len() && (#[trigger] allow[i]).is_prefix_of(s.metric)) {
            scrape::candidates(target, samples, allow) + scrape::expanded(target, s)
        } else {
            scrape::candidates(target, samples, allow)
        },
{
    assert(samples.push(s).drop_last() =~= samples);
    reveal_strlit("tonggeret_dropped_total");
    reveal_strlit("_bucket");
    if s.value is Histogram {
        let name = s.metric + "_bucket"@;
        assert(name.last() == 't');
        assert("tonggeret_dropped_total"@.last() == 'l');
    }
}

/// The cap keeps the first samples, as many as it allows, and counts the rest.
pub proof fn law_cap_keeps_first(all: Seq<PlannedView>, cap: nat, i: int)
    requires
        all.len() - cap <= usize::MAX,
    ensures
        all.len() <= cap ==> scrape::first_n(all, cap) == all && scrape::over_cap(all, cap) == 0,
        all.len() > cap ==> scrape::first_n(all, cap).len() == cap && scrape::over_cap(all, cap)
            == all.len() - cap,
        0 <= i < all.len() && i < cap ==> scrape::first_n(all, cap)[i] == all[i],
{
}

/// A planned sample, a parsed one and a step are what their fields say.
pub proof fn law_views(p: PlannedSample, s: Sample, b: Bound)
    ensures
        p.deep_view().name == p.name@,
        p.deep_view().kind == p.kind,
        p.deep_view().value == p.value,
        p.deep_view().labels.len() == p.labels@.len(),
        forall|i: int|
            0 <= i < p.labels@.len() ==> #[trigger] p.deep_view().labels[i] == (
                p.labels@[i].0@,
                p.labels@[i].1@,
            ),
        s.deep_view().metric == s.metric@,
        s.deep_view().labels.len() == s.labels@.len(),
        forall|i: int|
            0 <= i < s.labels@.len() ==> #[trigger] s.deep_view().labels[i] == (
                s.labels@[i].0@,
                s.labels@[i].1@,
            ),
        s.value matches Reading::Counter(v) ==> s.deep_view().value == ReadingView::Counter(v),
        s.value matches Reading::Gauge(v) ==> s.deep_view().value == ReadingView::Gauge(v),
        s.value matches Reading::Untyped(v) ==> s.deep_view().value == ReadingView::Untyped(v),
        s.value matches Reading::Histogram(x) ==> s.deep_view().value == ReadingView::Histogram(
            x@.map_values(|y: Bound| y.deep_view()),
        ),
        s.value matches Reading::Summary(x) ==> s.deep_view().value == ReadingView::Summary(
            x@.map_values(|y: Bound| y.deep_view()),
        ),
        b.deep_view().at == b.at,
        b.deep_view().text == b.text@,
        b.deep_view().count == b.count,
{
    match s.value {
        Reading::Histogram(x) => {
            assert(x.deep_view() =~= x@.map_values(|y: Bound| y.deep_view()));
        },
        Reading::Summary(x) => {
            assert(x.deep_view() =~= x@.map_values(|y: Bound| y.deep_view()));
        },
        _ => {},
    }
}

/// The outcomes have names of their own.
pub proof fn law_status_texts()
    ensures
        scrape::status_text(ScrapeStatus::Success) == "ok"@,
        scrape::status_text(ScrapeStatus::FetchError) == "fetch_error"@,
        scrape::status_text(ScrapeStatus::ParseError) == "parse_error"@,
{
}

}
