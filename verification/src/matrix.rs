//! The answer to a range query in the shape of a Prometheus matrix.
use vstd::prelude::*;
use vstd::string::*;
use std::collections::BTreeMap;
use crate::labels;
use crate::query::{QueryOutcome, Series};
use crate::query::SeriesView;
use crate::text;

verus! {

broadcast use vstd::std_specs::btree::group_btree_axioms;

/// One series of a matrix.
#[derive(Debug)]
pub struct MatrixSeries {
    /// Label pairs in key order, the metric name under `__name__`.
    pub metric: Vec<(String, String)>,
    /// `(ts_micros, value bits)` in step order.
    pub values: Vec<(u64, u64)>,
}

/// A `query_range` answer.
#[derive(Debug)]
pub struct Matrix {
    /// Always `success`.
    pub status: &'static str,
    /// Always `matrix`.
    pub result_type: &'static str,
    /// The series, in answer order.
    pub result: Vec<MatrixSeries>,
    /// Present where the answer is partial.
    pub warnings: Option<Vec<String>>,
}

/// The keys go up from left to right.
pub open spec fn keys_rising(s: Seq<labels::Pair>) -> bool {
    forall|i: int, j: int| 0 <= i < j < s.len() ==> text::text_lt(#[trigger] s[i].0, #[trigger] s[j].0)
}

/// The labels of a series with its name under `__name__`; a label of that key
/// takes the name's place.
pub open spec fn metric_of(s: SeriesView) -> Map<Seq<char>, Seq<char>> {
    labels::as_map(seq![("__name__"@, s.name)] + s.labels)
}

/// `ks` are the keys of `m`, in rising order.
pub open spec fn rising_keys(m: Map<u64, (u64, u64)>, ks: Seq<u64>) -> bool {
    &&& forall|i: int, j: int| 0 <= i < j < ks.len() ==> #[trigger] ks[i] < #[trigger] ks[j]
    &&& forall|k: u64| m.contains_key(k) <==> #[trigger] ks.contains(k)
}

/// `values` are the points of `m`, in the order of their buckets.
pub open spec fn in_bucket_order(m: Map<u64, (u64, u64)>, values: Seq<(u64, u64)>) -> bool {
    exists|ks: Seq<u64>| #[trigger]
        rising_keys(m, ks) && values.len() == ks.len() && forall|i: int|
            0 <= i < ks.len() ==> #[trigger] values[i] == m[ks[i]]
}

/// `r` shows the series `s`.
pub open spec fn shows(r: MatrixSeries, s: SeriesView) -> bool {
    &&& keys_rising(r.metric.deep_view())
    &&& labels::as_map(r.metric.deep_view()) == metric_of(s)
    &&& in_bucket_order(s.points, r.values@)
}

proof fn lemma_rising_distinct(s: Seq<labels::Pair>)
    requires
        keys_rising(s),
    ensures
        labels::distinct_keys(s),
{
    assert forall|i: int, j: int| 0 <= i < j < s.len() implies #[trigger] s[i].0
        != #[trigger] s[j].0 by {
        text::lemma_text_order(s[i].0, s[j].0, s[i].0);
    }
}

proof fn lemma_put(s: Seq<labels::Pair>, j: int, p: labels::Pair, replace: bool)
    requires
        keys_rising(s),
        0 <= j <= s.len(),
        forall|k: int| 0 <= k < j ==> text::text_lt(#[trigger] s[k].0, p.0),
        replace ==> j < s.len() && s[j].0 == p.0,
        !replace ==> forall|k: int| j <= k < s.len() ==> text::text_lt(p.0, #[trigger] s[k].0),
    ensures
        ({
            let r = if replace {
                s.update(j, p)
            } else {
                s.insert(j, p)
            };
            keys_rising(r) && labels::as_map(r) == labels::as_map(s).insert(p.0, p.1)
        }),
{
    let r = if replace {
        s.update(j, p)
    } else {
        s.insert(j, p)
    };
    assert forall|a: int, b: int| 0 <= a < b < r.len() implies text::text_lt(
        #[trigger] r[a].0,
        #[trigger] r[b].0,
    ) by {
        if replace {
            assert(r[a].0 == s[a].0 && r[b].0 == s[b].0);
        } else {
            if a < j {
                assert(r[a] == s[a]);
            } else if a > j {
                assert(r[a] == s[a - 1]);
            }
            if b < j {
                assert(r[b] == s[b]);
            } else if b > j {
                assert(r[b] == s[b - 1]);
            }
        }
    }
    lemma_rising_distinct(s);
    lemma_rising_distinct(r);
    let old_map = labels::as_map(s);
    let new_map = labels::as_map(r);
    let want = old_map.insert(p.0, p.1);
    assert(r[j] == p);
    labels::lemma_as_map(r, p);
    assert forall|q: labels::Pair| q.0 != p.0 implies (r.contains(q) <==> s.contains(q)) by {
        if s.contains(q) {
            let i = choose|i: int| 0 <= i < s.len() && s[i] == q;
            if replace || i < j {
                assert(r[i] == q);
            } else {
                assert(r[i + 1] == q);
            }
        }
        if r.contains(q) {
            let i = choose|i: int| 0 <= i < r.len() && r[i] == q;
            if replace || i < j {
                assert(s[i] == q);
            } else {
                assert(s[i - 1] == q);
            }
        }
    }
    assert forall|k: Seq<char>| #[trigger] new_map.contains_key(k) <==> want.contains_key(k) by {
        if k != p.0 {
            labels::lemma_as_map(r, (k, new_map[k]));
            labels::lemma_as_map(s, (k, new_map[k]));
            labels::lemma_as_map(r, (k, old_map[k]));
            labels::lemma_as_map(s, (k, old_map[k]));
        }
    }
    assert forall|k: Seq<char>| new_map.contains_key(k) implies #[trigger] new_map[k]
        == want[k] by {
        if k != p.0 {
            labels::lemma_as_map(r, (k, new_map[k]));
            labels::lemma_as_map(s, (k, new_map[k]));
        }
    }
    assert(new_map =~= want);
}

/// Gives the key its value, in key order.
fn put(pairs: &mut Vec<(String, String)>, key: String, value: String)
    requires
        keys_rising(old(pairs).deep_view()),
    ensures
        keys_rising(final(pairs).deep_view()),
        labels::as_map(final(pairs).deep_view()) == labels::as_map(old(pairs).deep_view()).insert(
            key@,
            value@,
        ),
{
    let ghost before = pairs.deep_view();
    let ghost p = (key@, value@);
    let mut j: usize = 0;
    while j < pairs.len() && text::precedes(pairs[j].0.as_str(), key.as_str())
        invariant
            j <= pairs.len(),
            pairs.deep_view() == before,
            p.0 == key@,
            forall|k: int| 0 <= k < j ==> text::text_lt(#[trigger] before[k].0, p.0),
        decreases pairs.len() - j,
    {
        assert(before[j as int].0 == pairs@[j as int].0@);
        j = j + 1;
    }
    if j < pairs.len() {
        assert(before[j as int].0 == pairs@[j as int].0@);
        if text::same(pairs[j].0.as_str(), key.as_str()) {
            proof {
                lemma_put(before, j as int, p, true);
            }
            pairs.set(j, (key, value));
            assert(pairs.deep_view() =~= before.update(j as int, p));
            return;
        }
    }
    proof {
        assert forall|k: int| j <= k < before.len() implies text::text_lt(
            p.0,
            #[trigger] before[k].0,
        ) by {
            text::lemma_text_order(p.0, before[j as int].0, before[k].0);
        }
        lemma_put(before, j as int, p, false);
    }
    pairs.insert(j, (key, value));
    assert(pairs.deep_view() =~= before.insert(j as int, p));
}

/// The labels of a series with its name, in key order.
fn render_metric(s: &Series) -> (r: Vec<(String, String)>)
    ensures
        keys_rising(r.deep_view()),
        labels::as_map(r.deep_view()) == metric_of(s.deep_view()),
{
    let mut r: Vec<(String, String)> = Vec::new();
    let ghost all = seq![("__name__"@, s.name@)] + s.labels.deep_view();
    assert(r.deep_view() =~= Seq::empty());
    put(&mut r, "__name__".to_string(), s.name.clone());
    let mut i: usize = 0;
    proof {
        assert(all.subrange(0, 1).drop_last() =~= Seq::empty());
        assert(all.subrange(0, 1).last() == ("__name__"@, s.name@));
    }
    while i < s.labels.len()
        invariant
            i <= s.labels.len(),
            all == seq![("__name__"@, s.name@)] + s.labels.deep_view(),
            keys_rising(r.deep_view()),
            labels::as_map(r.deep_view()) == labels::as_map(all.subrange(0, i + 1)),
        decreases s.labels.len() - i,
    {
        put(&mut r, s.labels[i].0.clone(), s.labels[i].1.clone());
        proof {
            assert(all.subrange(0, i + 2).drop_last() =~= all.subrange(0, i + 1));
            assert(all.subrange(0, i + 2).last() == s.labels@[i as int].deep_view());
        }
        i = i + 1;
    }
    assert(all.subrange(0, i + 1) =~= all);
    r
}

proof fn lemma_increasing(ks: Seq<u64>)
    requires
        vstd::std_specs::btree::increasing_seq(ks),
    ensures
        forall|i: int, j: int| 0 <= i < j < ks.len() ==> #[trigger] ks[i] < #[trigger] ks[j],
{
    broadcast use vstd::std_specs::btree::group_btree_axioms;

    assert forall|i: int, j: int| 0 <= i < j < ks.len() implies #[trigger] ks[i]
        < #[trigger] ks[j] by {
        assert(vstd::std_specs::cmp::OrdSpec::cmp_spec(&ks[i], &ks[j]) is Less);
    }
}

/// The points of a series, in the order of their buckets.
fn render_values(buckets: &BTreeMap<u64, (u64, u64)>) -> (r: Vec<(u64, u64)>)
    ensures
        in_bucket_order(buckets@, r@),
{
    let mut r: Vec<(u64, u64)> = Vec::new();
    let values = buckets.values();
    let ghost ks = choose|ks: Seq<u64>|
        {
            &&& vstd::std_specs::btree::increasing_seq(ks)
            &&& ks.to_set() == buckets@.dom()
            &&& ks.no_duplicates()
            &&& vstd::std_specs::iter::IteratorSpec::remaining(&values) == ks.map(
                |i: int, k| &buckets@[k],
            )
        };
    let ghost found = ks.map(|i: int, k: u64| &buckets@[k]);
    for v in it: values
        invariant
            it.seq() == found,
            r.len() == it.index(),
            forall|k: int| 0 <= k < r.len() ==> r@[k] == *found[k],
    {
        r.push(*v);
    }
    proof {
        assert forall|k: u64| buckets@.contains_key(k) <==> #[trigger] ks.contains(k) by {
            assert(ks.to_set().contains(k) <==> ks.contains(k));
        }
        lemma_increasing(ks);
        assert(rising_keys(buckets@, ks));
        assert(r.len() == ks.len());
        assert forall|i: int| 0 <= i < ks.len() implies #[trigger] r@[i] == buckets@[ks[i]] by {
            assert(*found[i] == buckets@[ks[i]]);
        }
    }
    r
}

/// `r` shows the outcome: every series in order, and a warning exactly where
/// the answer is partial.
pub open spec fn renders(r: Matrix, series: Seq<SeriesView>, clamped: bool) -> bool {
    &&& r.status@ == "success"@
    &&& r.result_type@ == "matrix"@
    &&& r.result.len() == series.len()
    &&& forall|i: int| 0 <= i < series.len() ==> shows(#[trigger] r.result@[i], series[i])
    &&& r.warnings.deep_view() == if clamped {
        Some(seq!["start predates the in-memory buffer; answer covers buffered data only"@])
    } else {
        None
    }
}

/// Render an outcome as a Prometheus `query_range` matrix.
#[must_use]
pub fn render_matrix(outcome: &QueryOutcome) -> (r: Matrix)
    ensures
        renders(r, outcome.series.deep_view(), outcome.clamped),
{
    let mut result: Vec<MatrixSeries> = Vec::new();
    let mut i: usize = 0;
    while i < outcome.series.len()
        invariant
            i <= outcome.series.len(),
            result.len() == i,
            forall|k: int|
                0 <= k < i ==> shows(#[trigger] result@[k], outcome.series@[k].deep_view()),
        decreases outcome.series.len() - i,
    {
        let s = &outcome.series[i];
        result.push(
            MatrixSeries { metric: render_metric(s), values: render_values(&s.buckets) },
        );
        i = i + 1;
    }
    let warnings: Option<Vec<String>> = if outcome.clamped {
        let mut w: Vec<String> = Vec::new();
        w.push(
            "start predates the in-memory buffer; answer covers buffered data only".to_string(),
        );
        assert(w.deep_view() =~= seq![
            "start predates the in-memory buffer; answer covers buffered data only"@,
        ]);
        Some(w)
    } else {
        None
    };
    Matrix { status: "success", result_type: "matrix", result, warnings }
}

/// A rendered series names its metric and every label of the series: its pairs
/// are settled by the series alone, and it has as many values as the series has
/// points.
pub proof fn law_rendering_settled(a: MatrixSeries, b: MatrixSeries, s: SeriesView)
    requires
        shows(a, s),
        shows(b, s),
        s.points.dom().finite(),
    ensures
        a.metric.deep_view() == b.metric.deep_view(),
        a.values@ == b.values@,
        a.values@.len() == s.points.dom().len(),
{
    let x = a.metric.deep_view();
    let y = b.metric.deep_view();
    lemma_rising_settled(x, y);
    let ks = choose|ks: Seq<u64>| #[trigger]
        rising_keys(s.points, ks) && a.values@.len() == ks.len() && forall|i: int|
            0 <= i < ks.len() ==> #[trigger] a.values@[i] == s.points[ks[i]];
    let ls = choose|ls: Seq<u64>| #[trigger]
        rising_keys(s.points, ls) && b.values@.len() == ls.len() && forall|i: int|
            0 <= i < ls.len() ==> #[trigger] b.values@[i] == s.points[ls[i]];
    lemma_rising_keys_settled(ks, ls, s.points);
    assert(a.values@ =~= b.values@);
    assert(ks.to_set() =~= s.points.dom()) by {
        assert forall|k: u64| #[trigger] ks.to_set().contains(k) <==> s.points.contains_key(k) by {
            assert(ks.to_set().contains(k) <==> ks.contains(k));
        }
    }
    assert(ks.no_duplicates());
    ks.unique_seq_to_set();
}

proof fn lemma_rising_settled(x: Seq<labels::Pair>, y: Seq<labels::Pair>)
    requires
        keys_rising(x),
        keys_rising(y),
        labels::as_map(x) == labels::as_map(y),
    ensures
        x == y,
    decreases x.len(),
{
    lemma_rising_distinct(x);
    lemma_rising_distinct(y);
    if x.len() > 0 {
        labels::lemma_as_map(x, x.last());
        labels::lemma_as_map(y, x.last());
        assert(x[x.len() - 1] == x.last());
        assert(y.contains(x.last()));
    }
    if y.len() > 0 {
        labels::lemma_as_map(y, y.last());
        labels::lemma_as_map(x, y.last());
        assert(y[y.len() - 1] == y.last());
        assert(x.contains(y.last()));
    }
    if x.len() == 0 || y.len() == 0 {
        assert(x =~= y);
    } else {
        let i = choose|i: int| 0 <= i < y.len() && y[i] == x.last();
        let j = choose|j: int| 0 <= j < x.len() && x[j] == y.last();
        if i < y.len() - 1 && j < x.len() - 1 {
            assert(text::text_lt(y[i].0, y[y.len() - 1].0));
            assert(text::text_lt(x[j].0, x[x.len() - 1].0));
            text::lemma_text_order(x.last().0, y.last().0, x.last().0);
        }
        assert(x.last() == y.last());
        let a = x.drop_last();
        let b = y.drop_last();
        assert(keys_rising(a)) by {
            assert forall|p: int, q: int| 0 <= p < q < a.len() implies text::text_lt(
                #[trigger] a[p].0,
                #[trigger] a[q].0,
            ) by {
                assert(a[p] == x[p] && a[q] == x[q]);
            }
        }
        assert(keys_rising(b)) by {
            assert forall|p: int, q: int| 0 <= p < q < b.len() implies text::text_lt(
                #[trigger] b[p].0,
                #[trigger] b[q].0,
            ) by {
                assert(b[p] == y[p] && b[q] == y[q]);
            }
        }
        lemma_rising_distinct(a);
        lemma_rising_distinct(b);
        let key = x.last().0;
        lemma_without_last(x);
        lemma_without_last(y);
        assert(labels::as_map(a) =~= labels::as_map(x).remove(key));
        assert(labels::as_map(b) =~= labels::as_map(y).remove(key));
        lemma_rising_settled(a, b);
        assert(x =~= a.push(x.last()));
        assert(y =~= b.push(y.last()));
    }
}

proof fn lemma_without_last(s: Seq<labels::Pair>)
    requires
        labels::distinct_keys(s),
        s.len() > 0,
    ensures
        !labels::as_map(s.drop_last()).contains_key(s.last().0),
{
    let init = s.drop_last();
    let key = s.last().0;
    assert forall|i: int, j: int| 0 <= i < j < init.len() implies #[trigger] init[i].0
        != #[trigger] init[j].0 by {
        assert(init[i] == s[i] && init[j] == s[j]);
    }
    if labels::as_map(init).contains_key(key) {
        let p = (key, labels::as_map(init)[key]);
        labels::lemma_as_map(init, p);
        let i = choose|i: int| 0 <= i < init.len() && init[i] == p;
        assert(s[i].0 != s[s.len() - 1].0);
    }
}

proof fn lemma_rising_keys_settled(a: Seq<u64>, b: Seq<u64>, m: Map<u64, (u64, u64)>)
    requires
        rising_keys(m, a),
        rising_keys(m, b),
    ensures
        a == b,
    decreases a.len(),
{
    if a.len() > 0 {
        assert(a[a.len() - 1] == a.last());
        assert(a.contains(a.last()));
        assert(m.contains_key(a.last()));
        assert(b.contains(a.last()));
    }
    if b.len() > 0 {
        assert(b[b.len() - 1] == b.last());
        assert(b.contains(b.last()));
        assert(m.contains_key(b.last()));
        assert(a.contains(b.last()));
    }
    if a.len() == 0 || b.len() == 0 {
        assert(a =~= b);
    } else {
        let i = choose|i: int| 0 <= i < b.len() && b[i] == a.last();
        let j = choose|j: int| 0 <= j < a.len() && a[j] == b.last();
        if i < b.len() - 1 && j < a.len() - 1 {
            assert(b[i] < b[b.len() - 1]);
            assert(a[j] < a[a.len() - 1]);
        }
        assert(a.last() == b.last());
        let x = a.last();
        let n = m.remove(x);
        let ia = a.drop_last();
        let ib = b.drop_last();
        lemma_rising_drop(a, m);
        lemma_rising_drop(b, m);
        lemma_rising_keys_settled(ia, ib, n);
        assert(a =~= ia.push(x));
        assert(b =~= ib.push(x));
    }
}

proof fn lemma_rising_drop(a: Seq<u64>, m: Map<u64, (u64, u64)>)
    requires
        rising_keys(m, a),
        a.len() > 0,
    ensures
        rising_keys(m.remove(a.last()), a.drop_last()),
{
    let x = a.last();
    let n = m.remove(x);
    let init = a.drop_last();
    assert forall|i: int, j: int| 0 <= i < j < init.len() implies #[trigger] init[i]
        < #[trigger] init[j] by {
        assert(a[i] < a[j]);
    }
    assert forall|k: u64| n.contains_key(k) <==> #[trigger] init.contains(k) by {
        if init.contains(k) {
            let i = choose|i: int| 0 <= i < init.len() && init[i] == k;
            assert(a[i] == k);
            assert(a[i] < a[a.len() - 1]);
            assert(a.contains(k));
        }
        if n.contains_key(k) {
            assert(a.contains(k));
            let i = choose|i: int| 0 <= i < a.len() && a[i] == k;
            assert(init[i] == k);
        }
    }
}

/// A rendered series shows the series: its keys rise, its labels are the series'
/// own and the name under `__name__`, and nothing else. Of a key that comes more
/// than once the last value is shown.
pub proof fn law_metric_shown(r: MatrixSeries, s: SeriesView, k: int)
    requires
        shows(r, s),
    ensures
        forall|i: int, j: int|
            0 <= i < j < r.metric@.len() ==> text::text_lt(
                #[trigger] r.metric@[i].0@,
                #[trigger] r.metric@[j].0@,
            ),
        (forall|i: int| 0 <= i < s.labels.len() ==> (#[trigger] s.labels[i]).0 != "__name__"@)
            ==> r.metric.deep_view().contains(("__name__"@, s.name)),
        0 <= k < s.labels.len() && (forall|i: int|
            k < i < s.labels.len() ==> (#[trigger] s.labels[i]).0 != s.labels[k].0)
            ==> r.metric.deep_view().contains(s.labels[k]),
        forall|p: labels::Pair| #[trigger]
            r.metric.deep_view().contains(p) ==> p == ("__name__"@, s.name) || s.labels.contains(p),
{
    let m = r.metric.deep_view();
    assert forall|i: int, j: int| 0 <= i < j < r.metric@.len() implies text::text_lt(
        #[trigger] r.metric@[i].0@,
        #[trigger] r.metric@[j].0@,
    ) by {
        assert(text::text_lt(m[i].0, m[j].0));
    }
    lemma_rising_distinct(m);
    let all = seq![("__name__"@, s.name)] + s.labels;
    if forall|i: int| 0 <= i < s.labels.len() ==> (#[trigger] s.labels[i]).0 != "__name__"@ {
        assert forall|i: int| 0 < i < all.len() implies (#[trigger] all[i]).0 != all[0].0 by {
            assert(all[i] == s.labels[i - 1]);
        }
        lemma_last_value(all, 0);
        labels::lemma_as_map(m, all[0]);
    }
    if 0 <= k < s.labels.len() && (forall|i: int|
        k < i < s.labels.len() ==> (#[trigger] s.labels[i]).0 != s.labels[k].0) {
        assert(all[k + 1] == s.labels[k]);
        assert forall|i: int| k + 1 < i < all.len() implies (#[trigger] all[i]).0 != all[k
            + 1].0 by {
            assert(all[i] == s.labels[i - 1]);
        }
        lemma_last_value(all, k + 1);
        labels::lemma_as_map(m, s.labels[k]);
    }
    assert forall|p: labels::Pair| #[trigger] m.contains(p) implies p == ("__name__"@, s.name)
        || s.labels.contains(p) by {
        labels::lemma_as_map(m, p);
        lemma_value_from(all, p);
        let i = choose|i: int| 0 <= i < all.len() && all[i] == p;
        if i > 0 {
            assert(s.labels[i - 1] == p);
        }
    }
}

proof fn lemma_last_value(s: Seq<labels::Pair>, k: int)
    requires
        0 <= k < s.len(),
        forall|i: int| k < i < s.len() ==> (#[trigger] s[i]).0 != s[k].0,
    ensures
        labels::as_map(s).contains_key(s[k].0),
        labels::as_map(s)[s[k].0] == s[k].1,
    decreases s.len(),
{
    if k < s.len() - 1 {
        let init = s.drop_last();
        assert forall|i: int| k < i < init.len() implies (#[trigger] init[i]).0 != init[k].0 by {
            assert(init[i] == s[i]);
        }
        lemma_last_value(init, k);
        assert(s[s.len() - 1].0 != s[k].0);
    }
}

proof fn lemma_value_from(s: Seq<labels::Pair>, p: labels::Pair)
    requires
        labels::as_map(s).contains_key(p.0),
        labels::as_map(s)[p.0] == p.1,
    ensures
        s.contains(p),
    decreases s.len(),
{
    if s.len() > 0 {
        if s.last().0 == p.0 {
            assert(s[s.len() - 1] == p);
        } else {
            lemma_value_from(s.drop_last(), p);
            let i = choose|i: int| 0 <= i < s.drop_last().len() && s.drop_last()[i] == p;
            assert(s[i] == p);
        }
    }
}

/// A rendered series has one value for each point of the series, in the order of
/// the buckets: its time and its value.
pub proof fn law_values_shown(r: MatrixSeries, s: SeriesView)
    requires
        shows(r, s),
    ensures
        exists|ks: Seq<u64>|
            {
                &&& #[trigger] ks.len() == r.values@.len()
                &&& forall|i: int, j: int|
                    0 <= i < j < ks.len() ==> (#[trigger] ks[i]) < (#[trigger] ks[j])
                &&& forall|i: int|
                    0 <= i < ks.len() ==> s.points.contains_key(#[trigger] ks[i]) && r.values@[i]
                        == s.points[ks[i]]
                &&& forall|b: u64| s.points.contains_key(b) ==> #[trigger] ks.contains(b)
            },
{
    let ks = choose|ks: Seq<u64>| #[trigger]
        rising_keys(s.points, ks) && r.values@.len() == ks.len() && forall|i: int|
            0 <= i < ks.len() ==> #[trigger] r.values@[i] == s.points[ks[i]];
    assert forall|i: int| 0 <= i < ks.len() implies s.points.contains_key(#[trigger] ks[i])
        && r.values@[i] == s.points[ks[i]] by {
        assert(ks.contains(ks[i]));
    }
    assert(ks.len() == r.values@.len());
}

/// A rendered answer has every series at its place, and warns exactly where the
/// answer is partial.
pub proof fn law_rendered(r: Matrix, series: Seq<SeriesView>, clamped: bool, i: int)
    requires
        renders(r, series, clamped),
    ensures
        r.status@ == "success"@,
        r.result_type@ == "matrix"@,
        r.result@.len() == series.len(),
        0 <= i < series.len() ==> shows(r.result@[i], series[i]),
        clamped <==> r.warnings is Some,
        clamped ==> r.warnings->0@.len() == 1 && r.warnings->0@[0]@
            == "start predates the in-memory buffer; answer covers buffered data only"@,
{
    if clamped {
        let w = r.warnings->0;
        assert(w.deep_view().len() == w@.len());
        assert(w.deep_view()[0] == w@[0]@);
    }
}

}
