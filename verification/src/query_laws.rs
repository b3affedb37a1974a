//! What a range query owes its caller, over the answers of
//! [`crate::query::RecentBuffer::query`].
use vstd::prelude::*;
use crate::labels;
use crate::query;
use crate::query::{BufferedSample, RangeQuery, Series};
use crate::query::{BufferedView, QueryView, SeriesView};
use crate::text;

verus! {

/// `s` is a sample that `q` asks for, with the label set `ls`, in bucket `b`.
pub open spec fn in_series(q: QueryView, ls: Seq<labels::Pair>, b: u64, s: BufferedView) -> bool {
    query::selected(q, s) && s.labels == ls && query::bucket_of(q, s) == b
}

/// `samples[i]` is the latest sample of its series and bucket; among samples of
/// one time, the one that came last.
pub open spec fn is_latest(
    samples: Seq<BufferedView>,
    q: QueryView,
    ls: Seq<labels::Pair>,
    b: u64,
    i: int,
) -> bool {
    &&& 0 <= i < samples.len()
    &&& in_series(q, ls, b, samples[i])
    &&& forall|j: int|
        0 <= j < samples.len() && in_series(q, ls, b, #[trigger] samples[j]) ==> samples[j].ts
            < samples[i].ts || (samples[j].ts == samples[i].ts && j <= i)
}

/// The answer holds a point for the sample `s`, not earlier than `s`.
pub open spec fn answered(samples: Seq<BufferedView>, q: QueryView, s: BufferedView) -> bool {
    exists|g: int|
        {
            &&& 0 <= g < query::answer(samples, q).len()
            &&& (#[trigger] query::answer(samples, q)[g]).labels == s.labels
            &&& query::answer(samples, q)[g].points.contains_key(query::bucket_of(q, s))
            &&& s.ts <= query::answer(samples, q)[g].points[query::bucket_of(q, s)].0
        }
}

proof fn lemma_hits_last(samples: Seq<BufferedView>, q: QueryView, ls: Seq<labels::Pair>)
    requires
        samples.len() > 0,
        query::selected(q, samples.last()),
    ensures
        ({
            let h = query::hits(samples.drop_last(), q);
            let s = samples.last();
            let b = query::bucket_of(q, s);
            let before = query::points(h, q, ls);
            &&& query::hits(samples, q) == h.push(s)
            &&& query::hits(samples, q).drop_last() == h
            &&& query::points(query::hits(samples, q), q, ls) == if s.labels != ls || (
            before.contains_key(b) && s.ts < before[b].0) {
                before
            } else {
                before.insert(b, (s.ts, s.value))
            }
        }),
{
    let h = query::hits(samples.drop_last(), q);
    assert(h.push(samples.last()).drop_last() =~= h);
    query::lemma_points_push(h, q, ls, samples.last());
}

proof fn lemma_present(samples: Seq<BufferedView>, q: QueryView, i: int)
    requires
        0 <= i < samples.len(),
        query::selected(q, samples[i]),
    ensures
        query::points(query::hits(samples, q), q, samples[i].labels).contains_key(
            query::bucket_of(q, samples[i]),
        ),
        query::label_sets(query::hits(samples, q)).contains(samples[i].labels),
    decreases samples.len(),
{
    let ls = samples[i].labels;
    let init = samples.drop_last();
    if query::selected(q, samples.last()) {
        lemma_hits_last(samples, q, ls);
        let sets = query::label_sets(query::hits(init, q));
        if i == samples.len() - 1 {
            if !sets.contains(ls) {
                assert(sets.push(ls)[sets.len() as int] == ls);
            }
        } else {
            lemma_present(init, q, i);
            let k = choose|k: int| 0 <= k < sets.len() && sets[k] == ls;
            assert(sets.push(samples.last().labels)[k] == ls);
        }
    } else {
        lemma_present(init, q, i);
    }
}

proof fn lemma_point(samples: Seq<BufferedView>, q: QueryView, ls: Seq<labels::Pair>, b: u64) -> (i:
    int)
    requires
        query::points(query::hits(samples, q), q, ls).contains_key(b),
    ensures
        is_latest(samples, q, ls, b, i),
        query::points(query::hits(samples, q), q, ls)[b] == (samples[i].ts, samples[i].value),
    decreases samples.len(),
{
    let init = samples.drop_last();
    let s = samples.last();
    let before = query::points(query::hits(init, q), q, ls);
    if query::selected(q, s) {
        lemma_hits_last(samples, q, ls);
    }
    let mine = in_series(q, ls, b, s);
    if before.contains_key(b) {
        let i = lemma_point(init, q, ls, b);
        if mine && s.ts >= before[b].0 {
            assert forall|j: int|
                0 <= j < samples.len() && in_series(q, ls, b, #[trigger] samples[j]) implies samples[j].ts
                < s.ts || (samples[j].ts == s.ts && j <= samples.len() - 1) by {
                if j < init.len() {
                    assert(init[j] == samples[j]);
                }
            }
            samples.len() - 1
        } else {
            assert forall|j: int|
                0 <= j < samples.len() && in_series(q, ls, b, #[trigger] samples[j]) implies samples[j].ts
                < samples[i].ts || (samples[j].ts == samples[i].ts && j <= i) by {
                if j < init.len() {
                    assert(init[j] == samples[j]);
                }
            }
            i
        }
    } else {
        assert(mine);
        assert forall|j: int|
            0 <= j < samples.len() && in_series(q, ls, b, #[trigger] samples[j]) implies j
            == samples.len() - 1 by {
            if j < init.len() {
                assert(init[j] == samples[j]);
                lemma_present(init, q, j);
            }
        }
        samples.len() - 1
    }
}

/// Every point of an answer is a buffered sample that the query asked for, and
/// the latest of its series and step bucket: values are taken as they are,
/// never summed.
pub proof fn law_latest_wins(samples: Seq<BufferedView>, q: QueryView, g: int, b: u64)
    requires
        0 <= g < query::answer(samples, q).len(),
        query::answer(samples, q)[g].points.contains_key(b),
    ensures
        exists|i: int|
            is_latest(samples, q, query::answer(samples, q)[g].labels, b, i)
                && query::answer(samples, q)[g].points[b] == ((#[trigger] samples[i]).ts, samples[i].value),
{
    let i = lemma_point(samples, q, query::answer(samples, q)[g].labels, b);
    assert(samples[i] == samples[i]);
}

/// No sample that the query asks for is left out: its series and its bucket
/// are in the answer, with a point that is not older.
pub proof fn law_complete(samples: Seq<BufferedView>, q: QueryView, i: int)
    requires
        0 <= i < samples.len(),
        query::selected(q, samples[i]),
    ensures
        answered(samples, q, samples[i]),
{
    let s = samples[i];
    let sets = query::label_sets(query::hits(samples, q));
    lemma_present(samples, q, i);
    let g = choose|g: int| 0 <= g < sets.len() && sets[g] == s.labels;
    let k = lemma_point(samples, q, s.labels, query::bucket_of(q, s));
    assert(query::answer(samples, q)[g].labels == s.labels);
    assert(in_series(q, s.labels, query::bucket_of(q, s), samples[i]));
}

/// Each series of an answer bears the queried name, and no label set comes
/// twice.
pub proof fn law_series_distinct(samples: Seq<BufferedView>, q: QueryView, g: int, k: int)
    requires
        0 <= g < k < query::answer(samples, q).len(),
    ensures
        query::answer(samples, q)[g].name == q.name,
        query::answer(samples, q)[k].name == q.name,
        query::answer(samples, q)[g].labels != query::answer(samples, q)[k].labels,
{
    query::lemma_label_sets_distinct(query::hits(samples, q));
}

/// The buffer never outgrows its capacity, and what leaves it is the oldest:
/// what stays is the end of what came in.
pub proof fn law_drop_oldest(held: Seq<BufferedView>, batch: Seq<BufferedView>, capacity: nat)
    requires
        capacity > 0,
        held.len() <= capacity,
    ensures
        query::last_n(held + batch, capacity).len() <= capacity,
        query::last_n(held + batch, capacity).is_suffix_of(held + batch),
        query::last_n(held + batch, capacity).len() < held.len() + batch.len()
            ==> query::last_n(held + batch, capacity).len() == capacity,
        batch.len() <= capacity ==> batch.is_suffix_of(query::last_n(held + batch, capacity)),
{
    let all = held + batch;
    let kept = query::last_n(all, capacity);
    assert(kept =~= all.subrange(all.len() - kept.len(), all.len() as int));
    if batch.len() <= capacity {
        assert(batch =~= kept.subrange(kept.len() - batch.len(), kept.len() as int));
    }
}

/// A read gives back a write: of a batch that the buffer can hold, every sample
/// that a query asks for is in the query's answer.
pub proof fn law_read_after_write(
    held: Seq<BufferedView>,
    batch: Seq<BufferedView>,
    capacity: nat,
    q: QueryView,
    i: int,
)
    requires
        held.len() <= capacity,
        batch.len() <= capacity,
        0 <= i < batch.len(),
        query::selected(q, batch[i]),
    ensures
        answered(query::last_n(held + batch, capacity), q, batch[i]),
{
    law_drop_oldest(held, batch, capacity);
    let kept = query::last_n(held + batch, capacity);
    assert(kept[kept.len() - batch.len() + i] == batch[i]);
    law_complete(kept, q, kept.len() - batch.len() + i);
}

/// Every listed name can be queried: over all of time and without matchers it
/// has an answer.
pub proof fn law_names_answer(samples: Seq<BufferedView>, q: QueryView)
    requires
        query::buffered(samples, q.name),
        q.matchers.len() == 0,
        q.start == 0,
        q.end == u64::MAX,
    ensures
        query::answer(samples, q).len() > 0,
{
    let i = choose|i: int| 0 <= i < samples.len() && (#[trigger] samples[i]).name == q.name;
    assert(query::selected(q, samples[i]));
    law_complete(samples, q, i);
}

/// The series that carry the label `p`, in order.
pub open spec fn narrowed(series: Seq<SeriesView>, p: labels::Pair) -> Seq<SeriesView>
    decreases series.len(),
{
    if series.len() == 0 {
        Seq::empty()
    } else if labels::has_label(series.last().labels, p.0, p.1) {
        narrowed(series.drop_last(), p).push(series.last())
    } else {
        narrowed(series.drop_last(), p)
    }
}

/// The query with one more matcher.
pub open spec fn with_matcher(q: QueryView, p: labels::Pair) -> QueryView {
    QueryView { matchers: q.matchers.push(p), ..q }
}

/// The samples that carry the label `p`, in order.
spec fn carrying(h: Seq<BufferedView>, p: labels::Pair) -> Seq<BufferedView>
    decreases h.len(),
{
    if h.len() == 0 {
        Seq::empty()
    } else if labels::has_label(h.last().labels, p.0, p.1) {
        carrying(h.drop_last(), p).push(h.last())
    } else {
        carrying(h.drop_last(), p)
    }
}

/// The label sets that hold the label `p`, in order.
spec fn sets_with(sets: Seq<Seq<labels::Pair>>, p: labels::Pair) -> Seq<Seq<labels::Pair>>
    decreases sets.len(),
{
    if sets.len() == 0 {
        Seq::empty()
    } else if labels::has_label(sets.last(), p.0, p.1) {
        sets_with(sets.drop_last(), p).push(sets.last())
    } else {
        sets_with(sets.drop_last(), p)
    }
}

proof fn lemma_selected_more(q: QueryView, p: labels::Pair, s: BufferedView)
    ensures
        query::selected(with_matcher(q, p), s) <==> query::selected(q, s) && labels::has_label(
            s.labels,
            p.0,
            p.1,
        ),
{
    let more = q.matchers.push(p);
    if query::labels_match(more, s) {
        assert forall|i: int| 0 <= i < q.matchers.len() implies labels::has_label(
            s.labels,
            (#[trigger] q.matchers[i]).0,
            q.matchers[i].1,
        ) by {
            assert(more[i] == q.matchers[i]);
        }
        assert(more[q.matchers.len() as int] == p);
    }
    if query::labels_match(q.matchers, s) && labels::has_label(s.labels, p.0, p.1) {
        assert forall|i: int| 0 <= i < more.len() implies labels::has_label(
            s.labels,
            (#[trigger] more[i]).0,
            more[i].1,
        ) by {
            if i < q.matchers.len() {
                assert(more[i] == q.matchers[i]);
            }
        }
    }
}

proof fn lemma_hits_more(samples: Seq<BufferedView>, q: QueryView, p: labels::Pair)
    ensures
        query::hits(samples, with_matcher(q, p)) == carrying(query::hits(samples, q), p),
    decreases samples.len(),
{
    if samples.len() > 0 {
        let init = samples.drop_last();
        lemma_hits_more(init, q, p);
        lemma_selected_more(q, p, samples.last());
        let h = query::hits(init, q);
        assert(h.push(samples.last()).drop_last() =~= h);
    }
}

proof fn lemma_sets_with(sets: Seq<Seq<labels::Pair>>, p: labels::Pair, ls: Seq<labels::Pair>)
    requires
        labels::has_label(ls, p.0, p.1),
    ensures
        sets_with(sets, p).contains(ls) <==> sets.contains(ls),
    decreases sets.len(),
{
    if sets.len() > 0 {
        let init = sets.drop_last();
        let last = sets.last();
        lemma_sets_with(init, p, ls);
        let before = sets_with(init, p);
        assert(sets[sets.len() - 1] == last);
        assert(before.push(last)[before.len() as int] == last);
        if init.contains(ls) {
            let i = choose|i: int| 0 <= i < init.len() && init[i] == ls;
            assert(sets[i] == ls);
        }
        if sets.contains(ls) && ls != last {
            let i = choose|i: int| 0 <= i < sets.len() && sets[i] == ls;
            assert(init[i] == ls);
        }
        if before.contains(ls) {
            let i = choose|i: int| 0 <= i < before.len() && before[i] == ls;
            assert(before.push(last)[i] == ls);
        }
        if before.push(last).contains(ls) && ls != last {
            let i = choose|i: int| 0 <= i < before.push(last).len() && before.push(last)[i] == ls;
            assert(before[i] == ls);
        }
    }
}

proof fn lemma_label_sets_more(h: Seq<BufferedView>, p: labels::Pair)
    ensures
        query::label_sets(carrying(h, p)) == sets_with(query::label_sets(h), p),
    decreases h.len(),
{
    if h.len() > 0 {
        let init = h.drop_last();
        let ls = h.last().labels;
        lemma_label_sets_more(init, p);
        let seen = query::label_sets(init);
        assert(seen.push(ls).drop_last() =~= seen);
        let some = carrying(init, p);
        assert(some.push(h.last()).drop_last() =~= some);
        if labels::has_label(ls, p.0, p.1) {
            lemma_sets_with(seen, p, ls);
        }
    }
}

proof fn lemma_points_more(
    h: Seq<BufferedView>,
    q: QueryView,
    p: labels::Pair,
    ls: Seq<labels::Pair>,
)
    requires
        labels::has_label(ls, p.0, p.1),
    ensures
        query::points(carrying(h, p), with_matcher(q, p), ls) == query::points(h, q, ls),
{
    assert forall|b: u64| #[trigger]
        query::in_bucket(carrying(h, p), with_matcher(q, p), ls, b) == query::in_bucket(
            h,
            q,
            ls,
            b,
        ) by {
        lemma_in_bucket_more(h, q, p, ls, b);
    }
    assert(query::points(carrying(h, p), with_matcher(q, p), ls) =~= query::points(h, q, ls));
}

proof fn lemma_in_bucket_more(
    h: Seq<BufferedView>,
    q: QueryView,
    p: labels::Pair,
    ls: Seq<labels::Pair>,
    b: u64,
)
    requires
        labels::has_label(ls, p.0, p.1),
    ensures
        query::in_bucket(carrying(h, p), with_matcher(q, p), ls, b) == query::in_bucket(h, q, ls, b),
    decreases h.len(),
{
    if h.len() > 0 {
        let init = h.drop_last();
        lemma_in_bucket_more(init, q, p, ls, b);
        let some = carrying(init, p);
        assert(some.push(h.last()).drop_last() =~= some);
    }
}

proof fn lemma_narrowed(
    sets: Seq<Seq<labels::Pair>>,
    h: Seq<BufferedView>,
    q: QueryView,
    p: labels::Pair,
)
    ensures
        ({
            let q2 = with_matcher(q, p);
            let h2 = carrying(h, p);
            sets_with(sets, p).map_values(
                |ls: Seq<labels::Pair>|
                    SeriesView { name: q2.name, labels: ls, points: query::points(h2, q2, ls) },
            ) == narrowed(
                sets.map_values(
                    |ls: Seq<labels::Pair>|
                        SeriesView { name: q.name, labels: ls, points: query::points(h, q, ls) },
                ),
                p,
            )
        }),
    decreases sets.len(),
{
    let q2 = with_matcher(q, p);
    let h2 = carrying(h, p);
    let f = |ls: Seq<labels::Pair>|
        SeriesView { name: q2.name, labels: ls, points: query::points(h2, q2, ls) };
    let g = |ls: Seq<labels::Pair>|
        SeriesView { name: q.name, labels: ls, points: query::points(h, q, ls) };
    let x = sets_with(sets, p).map_values(f);
    let all = sets.map_values(g);
    if sets.len() == 0 {
        assert(x =~= narrowed(all, p));
    } else {
        let init = sets.drop_last();
        let last = sets.last();
        lemma_narrowed(init, h, q, p);
        assert(all.drop_last() =~= init.map_values(g));
        assert(all.last() == g(last));
        if labels::has_label(last, p.0, p.1) {
            lemma_points_more(h, q, p, last);
            assert(x =~= sets_with(init, p).map_values(f).push(f(last)));
        }
    }
}

proof fn lemma_narrowed_points(series: Seq<SeriesView>, p: labels::Pair)
    ensures
        query::total_points(narrowed(series, p)) <= query::total_points(series),
    decreases series.len(),
{
    if series.len() > 0 {
        let init = series.drop_last();
        lemma_narrowed_points(init, p);
        let some = narrowed(init, p);
        assert(some.push(series.last()).drop_last() =~= some);
    }
}

/// One more matcher narrows the answer and changes nothing else: what is left
/// are the series that carry the label, in the same order and with the same
/// points. So where a query is answered, the narrower one is answered too, and
/// as it starts at the same time it is partial exactly where the other is.
pub proof fn law_one_more_matcher(samples: Seq<BufferedView>, q: QueryView, p: labels::Pair)
    ensures
        query::answer(samples, with_matcher(q, p)) == narrowed(query::answer(samples, q), p),
        query::total_points(query::answer(samples, with_matcher(q, p))) <= query::total_points(
            query::answer(samples, q),
        ),
        with_matcher(q, p).start == q.start,
{
    let h = query::hits(samples, q);
    lemma_hits_more(samples, q, p);
    lemma_label_sets_more(h, p);
    lemma_narrowed(query::label_sets(h), h, q, p);
    lemma_narrowed_points(query::answer(samples, q), p);
}

/// A sample is asked for exactly where its name is the queried one, its time
/// lies in the window, both ends included, and every matcher is one of its
/// labels.
pub proof fn law_asked_for(q: QueryView, s: BufferedView)
    ensures
        query::selected(q, s) <==> s.name == q.name && q.start <= s.ts && s.ts <= q.end && (forall|
            k: int,
        |
            0 <= k < q.matchers.len() ==> s.labels.contains(#[trigger] q.matchers[k])),
{
    if query::selected(q, s) {
        assert forall|k: int| 0 <= k < q.matchers.len() implies s.labels.contains(
            #[trigger] q.matchers[k],
        ) by {
            let m = q.matchers[k];
            assert(labels::has_label(s.labels, m.0, m.1));
            assert((m.0, m.1) == m);
        }
    }
    if forall|k: int| 0 <= k < q.matchers.len() ==> s.labels.contains(#[trigger] q.matchers[k]) {
        assert forall|k: int| 0 <= k < q.matchers.len() implies labels::has_label(
            s.labels,
            (#[trigger] q.matchers[k]).0,
            q.matchers[k].1,
        ) by {
            let m = q.matchers[k];
            assert((m.0, m.1) == m);
        }
    }
}

/// The bucket of a sample in the window is the step that its time falls into,
/// counted from the start.
pub proof fn law_bucket(q: QueryView, s: BufferedView, b: u64)
    requires
        q.step > 0,
        q.start <= s.ts,
    ensures
        query::bucket_of(q, s) == b <==> q.start + b * q.step <= s.ts < q.start + (b + 1) * q.step,
{
    let x = s.ts - q.start;
    let d = q.step as int;
    vstd::arithmetic::div_mod::lemma_fundamental_div_mod(x, d);
    vstd::arithmetic::div_mod::lemma_mod_bound(x, d);
    let c = x / d;
    assert(0 <= c <= x) by (nonlinear_arith)
        requires
            x == d * c + x % d,
            0 <= x % d < d,
            0 <= x,
            d > 0,
    ;
    assert(c * d <= x < (c + 1) * d) by (nonlinear_arith)
        requires
            x == d * c + x % d,
            0 <= x % d < d,
    ;
    let n = b as int;
    if n * d <= x < (n + 1) * d {
        assert(n == c) by (nonlinear_arith)
            requires
                n * d <= x < (n + 1) * d,
                c * d <= x < (c + 1) * d,
                d > 0,
        ;
    }
}

/// Every point of an answer lies in the asked window, and in its own bucket:
/// bucket `b` covers the `b`th step after the start.
pub proof fn law_points_in_window(samples: Seq<BufferedView>, q: QueryView, g: int, b: u64)
    requires
        q.step > 0,
        0 <= g < query::answer(samples, q).len(),
        query::answer(samples, q)[g].points.contains_key(b),
    ensures
        q.start <= query::answer(samples, q)[g].points[b].0 <= q.end,
        q.start + b * q.step <= query::answer(samples, q)[g].points[b].0,
        query::answer(samples, q)[g].points[b].0 < q.start + (b + 1) * q.step,
{
    let ls = query::answer(samples, q)[g].labels;
    let i = lemma_point(samples, q, ls, b);
    law_asked_for(q, samples[i]);
    law_bucket(q, samples[i], b);
}

/// Every point of an answer is the time and the value of one buffered sample:
/// of the queried name, with the label set of the series, with every matcher
/// among its labels.
pub proof fn law_points_are_samples(samples: Seq<BufferedView>, q: QueryView, g: int, b: u64)
    requires
        0 <= g < query::answer(samples, q).len(),
        query::answer(samples, q)[g].points.contains_key(b),
    ensures
        exists|i: int|
            0 <= i < samples.len() && (#[trigger] samples[i]).name == q.name && samples[i].labels
                == query::answer(samples, q)[g].labels && query::answer(samples, q)[g].points[b]
                == (samples[i].ts, samples[i].value),
        forall|k: int|
            0 <= k < q.matchers.len() ==> query::answer(samples, q)[g].labels.contains(
                #[trigger] q.matchers[k],
            ),
{
    let ls = query::answer(samples, q)[g].labels;
    let i = lemma_point(samples, q, ls, b);
    law_asked_for(q, samples[i]);
    assert(samples[i].name == q.name);
}

/// A point is the latest of its bucket: no sample of the queried name with the
/// same label set, in the window and in that step, is later; among those of one
/// time the point is the one that came in last.
pub proof fn law_point_is_latest(samples: Seq<BufferedView>, q: QueryView, g: int, b: u64, j: int)
    requires
        q.step > 0,
        0 <= g < query::answer(samples, q).len(),
        query::answer(samples, q)[g].points.contains_key(b),
        0 <= j < samples.len(),
        samples[j].name == q.name,
        samples[j].labels == query::answer(samples, q)[g].labels,
        q.start <= samples[j].ts <= q.end,
        q.start + b * q.step <= samples[j].ts < q.start + (b + 1) * q.step,
    ensures
        samples[j].ts <= query::answer(samples, q)[g].points[b].0,
        samples[j].ts == query::answer(samples, q)[g].points[b].0 ==> exists|i: int|
            j <= i < samples.len() && (#[trigger] samples[i]).ts == samples[j].ts
                && samples[i].labels == samples[j].labels && samples[i].value == query::answer(
                samples,
                q,
            )[g].points[b].1,
{
    let ls = query::answer(samples, q)[g].labels;
    law_points_are_samples(samples, q, g, b);
    law_asked_for(q, samples[j]);
    law_bucket(q, samples[j], b);
    let i = lemma_point(samples, q, ls, b);
    assert(in_series(q, ls, b, samples[j]));
    assert(samples[i].labels == ls);
}

/// Nothing that was asked for is missing: a sample of the queried name, in the
/// window and with every matcher among its labels, has a series with its label
/// set, and in it a point in the step that its time falls into, not older than
/// itself.
pub proof fn law_every_sample_answered(samples: Seq<BufferedView>, q: QueryView, i: int)
    requires
        q.step > 0,
        0 <= i < samples.len(),
        samples[i].name == q.name,
        q.start <= samples[i].ts <= q.end,
        forall|k: int|
            0 <= k < q.matchers.len() ==> samples[i].labels.contains(#[trigger] q.matchers[k]),
    ensures
        exists|g: int, b: u64|
            0 <= g < query::answer(samples, q).len() && (#[trigger] query::answer(
                samples,
                q,
            )[g]).labels == samples[i].labels && #[trigger] query::answer(
                samples,
                q,
            )[g].points.contains_key(b) && q.start + b * q.step <= samples[i].ts < q.start + (b + 1)
                * q.step && samples[i].ts <= query::answer(samples, q)[g].points[b].0,
{
    let s = samples[i];
    law_asked_for(q, s);
    law_complete(samples, q, i);
    let b = query::bucket_of(q, s);
    law_bucket(q, s, b);
    let g = choose|g: int|
        {
            &&& 0 <= g < query::answer(samples, q).len()
            &&& (#[trigger] query::answer(samples, q)[g]).labels == s.labels
            &&& query::answer(samples, q)[g].points.contains_key(query::bucket_of(q, s))
            &&& s.ts <= query::answer(samples, q)[g].points[query::bucket_of(q, s)].0
        };
    assert(query::answer(samples, q)[g].points.contains_key(b));
}

/// No series of an answer is empty.
pub proof fn law_no_empty_series(samples: Seq<BufferedView>, q: QueryView, g: int)
    requires
        0 <= g < query::answer(samples, q).len(),
    ensures
        exists|b: u64| #[trigger] query::answer(samples, q)[g].points.contains_key(b),
        query::answer(samples, q)[g].name == q.name,
{
    let h = query::hits(samples, q);
    let sets = query::label_sets(h);
    let i = lemma_first_hit(samples, q, g);
    lemma_present(samples, q, i);
    assert(query::answer(samples, q)[g].points.contains_key(
        query::bucket_of(q, samples[i]),
    ));
}

/// The first sample of the `g`th label set.
proof fn lemma_first_hit(samples: Seq<BufferedView>, q: QueryView, g: int) -> (i: int)
    requires
        0 <= g < query::label_sets(query::hits(samples, q)).len(),
    ensures
        0 <= i < samples.len(),
        query::selected(q, samples[i]),
        samples[i].labels == query::label_sets(query::hits(samples, q))[g],
        forall|j: int, k: int|
            0 <= j < i && g <= k < query::label_sets(query::hits(samples, q)).len()
                && query::selected(q, #[trigger] samples[j]) ==> samples[j].labels
                != #[trigger] query::label_sets(query::hits(samples, q))[k],
    decreases samples.len(),
{
    if samples.len() == 0 {
        assert(query::hits(samples, q).len() == 0);
        0
    } else {
        let init = samples.drop_last();
        let s = samples.last();
        let before = query::label_sets(query::hits(init, q));
        let sets = query::label_sets(query::hits(samples, q));
        if query::selected(q, s) {
            lemma_hits_last(samples, q, s.labels);
        }
        query::lemma_label_sets_distinct(query::hits(samples, q));
        if g < before.len() {
            assert(sets[g] == before[g]);
            let i = lemma_first_hit(init, q, g);
            assert forall|j: int, k: int|
                0 <= j < i && g <= k < sets.len() && query::selected(
                    q,
                    #[trigger] samples[j],
                ) implies samples[j].labels != #[trigger] sets[k] by {
                assert(samples[j] == init[j]);
                if k < before.len() {
                    assert(sets[k] == before[k]);
                } else {
                    lemma_present(init, q, j);
                    let x = choose|x: int| 0 <= x < before.len() && before[x] == init[j].labels;
                    assert(sets[x] == before[x]);
                }
            }
            i
        } else {
            let i = samples.len() - 1;
            assert forall|j: int, k: int|
                0 <= j < i && g <= k < sets.len() && query::selected(
                    q,
                    #[trigger] samples[j],
                ) implies samples[j].labels != #[trigger] sets[k] by {
                assert(samples[j] == init[j]);
                lemma_present(init, q, j);
                let x = choose|x: int| 0 <= x < before.len() && before[x] == init[j].labels;
                assert(sets[x] == before[x]);
            }
            i
        }
    }
}

/// Series come in the order in which they are first seen: before any sample of a
/// later series there is one of each earlier series.
pub proof fn law_first_seen_order(samples: Seq<BufferedView>, q: QueryView, g: int, k: int, j: int)
    requires
        0 <= g < k < query::answer(samples, q).len(),
        0 <= j < samples.len(),
        samples[j].name == q.name,
        samples[j].labels == query::answer(samples, q)[k].labels,
        q.start <= samples[j].ts <= q.end,
    ensures
        exists|i: int|
            0 <= i < j && (#[trigger] samples[i]).labels == query::answer(samples, q)[g].labels
                && samples[i].name == q.name && q.start <= samples[i].ts <= q.end,
{
    law_no_empty_series(samples, q, k);
    let b = choose|b: u64| #[trigger] query::answer(samples, q)[k].points.contains_key(b);
    law_points_are_samples(samples, q, k, b);
    law_asked_for(q, samples[j]);
    let i = lemma_first_hit(samples, q, g);
    law_asked_for(q, samples[i]);
    query::lemma_label_sets_distinct(query::hits(samples, q));
    let sets = query::label_sets(query::hits(samples, q));
    assert(sets[g] != sets[k]);
    assert(samples[i].labels == query::answer(samples, q)[g].labels);
}

/// The size of an answer is the number of its points: a series more is as many
/// points more as it has buckets.
pub proof fn law_total_points(series: Seq<SeriesView>, s: SeriesView)
    ensures
        query::total_points(Seq::<SeriesView>::empty()) == 0,
        query::total_points(series.push(s)) == query::total_points(series) + s.points.dom().len(),
{
    assert(series.push(s).drop_last() =~= series);
}

/// A name is listed exactly where a buffered sample bears it.
pub proof fn law_buffered(samples: Seq<BufferedView>, n: Seq<char>)
    ensures
        query::buffered(samples, n) <==> samples.map_values(|s: BufferedView| s.name).contains(n),
{
    let names = samples.map_values(|s: BufferedView| s.name);
    if query::buffered(samples, n) {
        let i = choose|i: int| 0 <= i < samples.len() && (#[trigger] samples[i]).name == n;
        assert(names[i] == n);
    }
    if names.contains(n) {
        let i = choose|i: int| 0 <= i < names.len() && names[i] == n;
        assert(samples[i].name == n);
    }
}

/// The refusal of an answer that is too large tells its size.
pub proof fn law_too_many_points(n: nat)
    ensures
        query::too_many_points(n) == "query would return "@ + text::decimal(n)
            + " points (limit 10000); increase step"@,
        query::MAX_POINTS == 10_000,
        query::DEFAULT_BUFFER_SAMPLES == 20_000,
{
}

/// A buffered sample, a query and a series are what their fields say.
pub proof fn law_views(s: BufferedSample, q: RangeQuery, g: Series)
    ensures
        s.deep_view().ts == s.ts_micros,
        s.deep_view().name == s.name@,
        s.deep_view().value == s.value,
        s.deep_view().labels.len() == s.labels@.len(),
        forall|i: int|
            0 <= i < s.labels@.len() ==> #[trigger] s.deep_view().labels[i] == (
                s.labels@[i].0@,
                s.labels@[i].1@,
            ),
        q.deep_view().name == q.name@,
        q.deep_view().start == q.start_micros,
        q.deep_view().end == q.end_micros,
        q.deep_view().step == q.step_micros,
        q.deep_view().matchers.len() == q.matchers@.len(),
        forall|i: int|
            0 <= i < q.matchers@.len() ==> #[trigger] q.deep_view().matchers[i] == (
                q.matchers@[i].0@,
                q.matchers@[i].1@,
            ),
        g.deep_view().name == g.name@,
        g.deep_view().points == g.buckets@,
        g.deep_view().labels.len() == g.labels@.len(),
        forall|i: int|
            0 <= i < g.labels@.len() ==> #[trigger] g.deep_view().labels[i] == (
                g.labels@[i].0@,
                g.labels@[i].1@,
            ),
{
}

/// An answer is whole where the buffer is empty or reaches back to the start, and
/// partial where its oldest sample came after; asking from an earlier start
/// never makes a partial answer whole.
pub proof fn law_partial(samples: Seq<BufferedView>, q: QueryView, earlier: QueryView)
    ensures
        samples.len() == 0 ==> !query::partial(samples, q),
        samples.len() > 0 && samples[0].ts <= q.start ==> !query::partial(samples, q),
        samples.len() > 0 && q.start < samples[0].ts ==> query::partial(samples, q),
        earlier.start <= q.start && query::partial(samples, q) ==> query::partial(samples, earlier),
{
}

}
