//! Label pairs: copying, comparing, looking up and ordering by key.
use vstd::prelude::*;
use crate::text;

verus! {

/// A label: its key and its value.
pub type Pair = (Seq<char>, Seq<char>);

/// `labels` holds the pair `(key, value)`.
pub open spec fn has_label(labels: Seq<Pair>, key: Seq<char>, value: Seq<char>) -> bool {
    labels.contains((key, value))
}

/// The keys never go down from left to right.
pub open spec fn keys_ordered(s: Seq<Pair>) -> bool {
    forall|i: int, j: int| 0 <= i < j < s.len() ==> text::text_le(#[trigger] s[i].0, #[trigger] s[j].0)
}

/// The keys of `s`, in order.
pub open spec fn keys(s: Seq<Pair>) -> Seq<Seq<char>> {
    s.map_values(|p: Pair| p.0)
}

/// The pairs of `s` whose key is `key`, in order.
pub open spec fn with_key(s: Seq<Pair>, key: Seq<char>) -> Seq<Pair>
    decreases s.len(),
{
    if s.len() == 0 {
        s
    } else if s.last().0 == key {
        with_key(s.drop_last(), key).push(s.last())
    } else {
        with_key(s.drop_last(), key)
    }
}

/// No key comes twice.
pub open spec fn distinct_keys(s: Seq<Pair>) -> bool {
    forall|i: int, j: int| 0 <= i < j < s.len() ==> #[trigger] s[i].0 != #[trigger] s[j].0
}

/// Some pair of `s` has the key `key`.
pub open spec fn has_key(s: Seq<Pair>, key: Seq<char>) -> bool {
    exists|i: int| 0 <= i < s.len() && (#[trigger] s[i]).0 == key
}

/// The value of each key; of a key that comes more than once, the last.
pub open spec fn as_map(s: Seq<Pair>) -> Map<Seq<char>, Seq<char>>
    decreases s.len(),
{
    if s.len() == 0 {
        Map::empty()
    } else {
        as_map(s.drop_last()).insert(s.last().0, s.last().1)
    }
}

/// `s` with `p` put behind every pair whose key is not after `p`'s.
pub open spec fn insert_by_key(s: Seq<Pair>, p: Pair) -> Seq<Pair>
    decreases s.len(),
{
    if s.len() == 0 || text::text_le(s.last().0, p.0) {
        s.push(p)
    } else {
        insert_by_key(s.drop_last(), p).push(s.last())
    }
}

/// `s` ordered by key, pairs with equal keys left in their order.
pub open spec fn sorted_by_key(s: Seq<Pair>) -> Seq<Pair>
    decreases s.len(),
{
    if s.len() == 0 {
        s
    } else {
        insert_by_key(sorted_by_key(s.drop_last()), s.last())
    }
}

proof fn lemma_insert_by_key(s: Seq<Pair>, p: Pair)
    requires
        keys_ordered(s),
    ensures
        keys_ordered(insert_by_key(s, p)),
        insert_by_key(s, p).len() == s.len() + 1,
        insert_by_key(s, p).to_multiset() =~= s.to_multiset().insert(p),
        forall|i: int|
            0 <= i < insert_by_key(s, p).len() ==> #[trigger] insert_by_key(s, p)[i] == p
                || s.contains(insert_by_key(s, p)[i]),
        forall|key: Seq<char>| #[trigger]
            with_key(insert_by_key(s, p), key) == with_key(s.push(p), key),
    decreases s.len(),
{
    broadcast use vstd::seq_lib::group_to_multiset_ensures;

    let r = insert_by_key(s, p);
    if s.len() == 0 || text::text_le(s.last().0, p.0) {
        assert forall|i: int, j: int| 0 <= i < j < r.len() implies text::text_le(
            #[trigger] r[i].0,
            #[trigger] r[j].0,
        ) by {
            if j == s.len() && i < s.len() - 1 {
                assert(text::text_le(s[i].0, s.last().0));
                lemma_le_transitive(s[i].0, s.last().0, p.0);
            }
        }
        assert forall|i: int| 0 <= i < r.len() implies #[trigger] r[i] == p || s.contains(r[i]) by {
            if i < s.len() {
                assert(r[i] == s[i]);
            }
        }
    } else {
        let init = s.drop_last();
        let last = s.last();
        assert(keys_ordered(init));
        lemma_insert_by_key(init, p);
        let q = insert_by_key(init, p);
        text::lemma_text_order(p.0, last.0, p.0);
        assert forall|i: int, j: int| 0 <= i < j < r.len() implies text::text_le(
            #[trigger] r[i].0,
            #[trigger] r[j].0,
        ) by {
            if j == s.len() {
                assert(r[i] == q[i]);
                if q[i] != p {
                    let k = choose|k: int| 0 <= k < init.len() && init[k] == q[i];
                    assert(s[k] == q[i]);
                    assert(text::text_le(s[k].0, s[s.len() - 1].0));
                }
            } else {
                assert(r[i] == q[i] && r[j] == q[j]);
            }
        }
        assert(s =~= init.push(last));
        assert(r.to_multiset() =~= s.to_multiset().insert(p));
        assert forall|i: int| 0 <= i < r.len() implies #[trigger] r[i] == p || s.contains(r[i]) by {
            if i < q.len() {
                assert(r[i] == q[i]);
                if q[i] != p {
                    let k = choose|k: int| 0 <= k < init.len() && init[k] == q[i];
                    assert(s[k] == q[i]);
                }
            } else {
                assert(s[s.len() - 1] == r[i]);
            }
        }
        assert forall|key: Seq<char>| #[trigger] with_key(r, key) == with_key(s.push(p), key) by {
            assert(r.drop_last() =~= q);
            assert(s.push(p).drop_last() =~= s);
            assert(init.push(p).drop_last() =~= init);
            assert(with_key(q, key) == with_key(init.push(p), key));
            assert(p.0 != last.0);
            assert(with_key(s, key) == if last.0 == key {
                with_key(init, key).push(last)
            } else {
                with_key(init, key)
            });
        }
    }
}

proof fn lemma_le_transitive(a: Seq<char>, b: Seq<char>, c: Seq<char>)
    requires
        text::text_le(a, b),
        text::text_le(b, c),
    ensures
        text::text_le(a, c),
{
    text::lemma_text_order(c, a, b);
    text::lemma_text_order(a, b, c);
    text::lemma_text_order(b, c, a);
    text::lemma_text_order(b, a, c);
    text::lemma_text_order(c, b, a);
}

/// Ordering by key keeps every pair, brings the keys in order and leaves pairs
/// with equal keys as they stood.
pub proof fn law_sorted_by_key(s: Seq<Pair>)
    ensures
        keys_ordered(sorted_by_key(s)),
        sorted_by_key(s).len() == s.len(),
        sorted_by_key(s).to_multiset() =~= s.to_multiset(),
        forall|key: Seq<char>| #[trigger] with_key(sorted_by_key(s), key) == with_key(s, key),
    decreases s.len(),
{
    broadcast use vstd::seq_lib::group_to_multiset_ensures;

    if s.len() > 0 {
        let init = s.drop_last();
        law_sorted_by_key(init);
        lemma_insert_by_key(sorted_by_key(init), s.last());
        assert(s =~= init.push(s.last()));
        assert forall|key: Seq<char>| #[trigger]
            with_key(sorted_by_key(s), key) == with_key(s, key) by {
            assert(sorted_by_key(init).push(s.last()).drop_last() =~= sorted_by_key(init));
            assert(with_key(sorted_by_key(init), key) == with_key(init, key));
        }
    }
}

/// Under distinct keys the map of the values holds exactly the pairs.
pub proof fn lemma_as_map(s: Seq<Pair>, p: Pair)
    requires
        distinct_keys(s),
    ensures
        s.contains(p) <==> as_map(s).contains_key(p.0) && as_map(s)[p.0] == p.1,
    decreases s.len(),
{
    if s.len() > 0 {
        let init = s.drop_last();
        assert(distinct_keys(init)) by {
            assert forall|i: int, j: int| 0 <= i < j < init.len() implies #[trigger] init[i].0
                != #[trigger] init[j].0 by {
                assert(init[i] == s[i] && init[j] == s[j]);
            }
        }
        lemma_as_map(init, p);
        assert(s == init.push(s.last())) by {
            assert(s =~= init.push(s.last()));
        }
        if s.contains(p) {
            let i = choose|i: int| 0 <= i < s.len() && s[i] == p;
            if i < init.len() {
                assert(init[i] == p);
                assert(s[i].0 != s[s.len() - 1].0);
            }
        }
        if init.contains(p) {
            let i = choose|i: int| 0 <= i < init.len() && init[i] == p;
            assert(s[i] == p);
        }
        assert(s.contains(s[s.len() - 1]));
    }
}

proof fn lemma_with_key(s: Seq<Pair>, key: Seq<char>)
    ensures
        with_key(s, key).len() > 0 <==> has_key(s, key),
        distinct_keys(s) ==> with_key(s, key).len() <= 1,
        forall|i: int|
            0 <= i < with_key(s, key).len() ==> #[trigger] with_key(s, key)[i].0 == key && s.contains(
                with_key(s, key)[i],
            ),
    decreases s.len(),
{
    if s.len() > 0 {
        let init = s.drop_last();
        lemma_with_key(init, key);
        if has_key(init, key) {
            let i = choose|i: int| 0 <= i < init.len() && (#[trigger] init[i]).0 == key;
            assert(s[i].0 == key);
        }
        if has_key(s, key) {
            let i = choose|i: int| 0 <= i < s.len() && (#[trigger] s[i]).0 == key;
            if i < init.len() {
                assert(init[i].0 == key);
            }
        }
        if s.last().0 == key {
            assert(s[s.len() - 1].0 == key);
        }
        if distinct_keys(s) {
            assert forall|i: int, j: int| 0 <= i < j < init.len() implies #[trigger] init[i].0
                != #[trigger] init[j].0 by {
                assert(init[i] == s[i] && init[j] == s[j]);
            }
            if s.last().0 == key && has_key(init, key) {
                let i = choose|i: int| 0 <= i < init.len() && (#[trigger] init[i]).0 == key;
                assert(s[i].0 != s[s.len() - 1].0);
            }
        }
        assert forall|i: int| 0 <= i < with_key(s, key).len() implies #[trigger] with_key(
            s,
            key,
        )[i].0 == key && s.contains(with_key(s, key)[i]) by {
            let w = with_key(init, key);
            if i < w.len() {
                assert(with_key(s, key)[i] == w[i]);
                let k = choose|k: int| 0 <= k < init.len() && init[k] == w[i];
                assert(s[k] == w[i]);
            } else {
                assert(s[s.len() - 1] == with_key(s, key)[i]);
            }
        }
    }
}

proof fn lemma_ordered_determined(a: Seq<Pair>, b: Seq<Pair>)
    requires
        keys_ordered(a),
        keys_ordered(b),
        forall|key: Seq<char>| #[trigger] with_key(a, key).len() == with_key(b, key).len(),
    ensures
        keys(a) == keys(b),
        (forall|key: Seq<char>| #[trigger] with_key(a, key) == with_key(b, key)) ==> a == b,
    decreases a.len(),
{
    if a.len() > 0 || b.len() > 0 {
        if a.len() > 0 {
            lemma_with_key(a, a.last().0);
            assert(a[a.len() - 1].0 == a.last().0);
            lemma_with_key(b, a.last().0);
        } else {
            lemma_with_key(b, b.last().0);
            assert(b[b.len() - 1].0 == b.last().0);
            lemma_with_key(a, b.last().0);
        }
        let ka = a.last().0;
        let kb = b.last().0;
        lemma_with_key(a, kb);
        lemma_with_key(b, kb);
        assert(b[b.len() - 1].0 == kb);
        let i = choose|i: int| 0 <= i < b.len() && (#[trigger] b[i]).0 == ka;
        let j = choose|j: int| 0 <= j < a.len() && (#[trigger] a[j]).0 == kb;
        assert(i < b.len() - 1 ==> text::text_le(b[i].0, b[b.len() - 1].0));
        assert(j < a.len() - 1 ==> text::text_le(a[j].0, a[a.len() - 1].0));
        text::lemma_text_order(ka, kb, ka);
        assert(ka == kb);
        let ia = a.drop_last();
        let ib = b.drop_last();
        assert(keys_ordered(ia)) by {
            assert forall|x: int, y: int| 0 <= x < y < ia.len() implies text::text_le(
                #[trigger] ia[x].0,
                #[trigger] ia[y].0,
            ) by {
                assert(text::text_le(a[x].0, a[y].0));
            }
        }
        assert(keys_ordered(ib)) by {
            assert forall|x: int, y: int| 0 <= x < y < ib.len() implies text::text_le(
                #[trigger] ib[x].0,
                #[trigger] ib[y].0,
            ) by {
                assert(text::text_le(b[x].0, b[y].0));
            }
        }
        assert forall|key: Seq<char>| #[trigger] with_key(ia, key).len() == with_key(
            ib,
            key,
        ).len() by {
            assert(with_key(a, key).len() == with_key(b, key).len());
        }
        lemma_ordered_determined(ia, ib);
        assert(keys(a) =~= keys(ia).push(ka));
        assert(keys(b) =~= keys(ib).push(kb));
        if forall|key: Seq<char>| #[trigger] with_key(a, key) == with_key(b, key) {
            assert forall|key: Seq<char>| #[trigger] with_key(ia, key) == with_key(ib, key) by {
                assert(with_key(a, key) == with_key(b, key));
                if key == ka {
                    assert(with_key(ia, key) =~= with_key(a, key).drop_last());
                    assert(with_key(ib, key) =~= with_key(b, key).drop_last());
                }
            }
            assert(with_key(a, ka).last() == a.last());
            assert(with_key(b, ka).last() == b.last());
            assert(a =~= ia.push(a.last()));
            assert(b =~= ib.push(b.last()));
        }
    } else {
        assert(keys(a) =~= keys(b));
        assert(a =~= b);
    }
}

/// `a` and `b` have the same keys, each as often in the one as in the other.
pub open spec fn same_keys(a: Seq<Pair>, b: Seq<Pair>) -> bool {
    forall|key: Seq<char>| #[trigger] with_key(a, key).len() == with_key(b, key).len()
}

/// Two label lists that are ordered by key and have the same keys present them
/// in the same order.
pub proof fn law_same_keys_same_order(a: Seq<Pair>, b: Seq<Pair>)
    requires
        keys_ordered(a),
        keys_ordered(b),
        same_keys(a, b),
    ensures
        keys(a) == keys(b),
{
    lemma_ordered_determined(a, b);
}

/// The order in which labels were read makes no difference: two lists with the
/// same value for each key, each key once, are one once a pair is added and
/// they are sorted.
pub proof fn law_reading_order_irrelevant(a: Seq<Pair>, b: Seq<Pair>, p: Pair)
    requires
        distinct_keys(a),
        distinct_keys(b),
        as_map(a) == as_map(b),
    ensures
        sorted_by_key(a.push(p)) == sorted_by_key(b.push(p)),
{
    law_sorted_by_key(a.push(p));
    law_sorted_by_key(b.push(p));
    assert(a.push(p).drop_last() =~= a);
    assert(b.push(p).drop_last() =~= b);
    assert forall|key: Seq<char>| #[trigger] with_key(sorted_by_key(a.push(p)), key) == with_key(
        sorted_by_key(b.push(p)),
        key,
    ) by {
        lemma_with_key(a, key);
        lemma_with_key(b, key);
        let wa = with_key(a, key);
        let wb = with_key(b, key);
        if wa.len() > 0 {
            lemma_as_map(a, wa[0]);
            lemma_as_map(b, wa[0]);
            let i = choose|i: int| 0 <= i < b.len() && b[i] == wa[0];
            assert(b[i].0 == key);
        }
        if wb.len() > 0 {
            lemma_as_map(b, wb[0]);
            lemma_as_map(a, wb[0]);
            let i = choose|i: int| 0 <= i < a.len() && a[i] == wb[0];
            assert(a[i].0 == key);
        }
        assert(wa =~= wb);
        assert(with_key(sorted_by_key(a.push(p)), key) == with_key(a.push(p), key));
        assert(with_key(sorted_by_key(b.push(p)), key) == with_key(b.push(p), key));
    }
    lemma_ordered_determined(sorted_by_key(a.push(p)), sorted_by_key(b.push(p)));
}

proof fn lemma_insert_position(s: Seq<Pair>, p: Pair, i: int)
    requires
        0 <= i <= s.len(),
        forall|k: int| i <= k < s.len() ==> text::text_lt(p.0, #[trigger] s[k].0),
        i > 0 ==> text::text_le(s[i - 1].0, p.0),
    ensures
        insert_by_key(s, p) == s.insert(i, p),
    decreases s.len() - i,
{
    if i < s.len() {
        lemma_insert_position(s.drop_last(), p, i);
        assert(s.drop_last().insert(i, p).push(s.last()) =~= s.insert(i, p));
    } else {
        assert(s.insert(i, p) =~= s.push(p));
    }
}

/// A copy of `v`.
pub fn clone_texts(v: &Vec<String>) -> (r: Vec<String>)
    ensures
        r.deep_view() == v.deep_view(),
{
    let mut r: Vec<String> = Vec::new();
    let mut i: usize = 0;
    while i < v.len()
        invariant
            i <= v.len(),
            r.len() == i,
            forall|k: int| 0 <= k < i ==> (#[trigger] r@[k])@ == v@[k]@,
        decreases v.len() - i,
    {
        r.push(v[i].clone());
        i = i + 1;
    }
    assert(r.deep_view() =~= v.deep_view());
    r
}

/// A copy of `v`.
pub fn clone_labels(v: &Vec<(String, String)>) -> (r: Vec<(String, String)>)
    ensures
        r.deep_view() == v.deep_view(),
{
    let mut r: Vec<(String, String)> = Vec::new();
    let mut i: usize = 0;
    while i < v.len()
        invariant
            i <= v.len(),
            r.len() == i,
            forall|k: int| 0 <= k < i ==> (#[trigger] r@[k]).deep_view() == v@[k].deep_view(),
        decreases v.len() - i,
    {
        r.push((v[i].0.clone(), v[i].1.clone()));
        i = i + 1;
    }
    assert(r.deep_view() =~= v.deep_view());
    r
}

/// Whether `a` and `b` hold the same pairs in the same order.
pub fn same_labels(a: &Vec<(String, String)>, b: &Vec<(String, String)>) -> (r: bool)
    ensures
        r == (a.deep_view() == b.deep_view()),
{
    if a.len() != b.len() {
        assert(a.deep_view().len() != b.deep_view().len());
        return false;
    }
    let mut i: usize = 0;
    while i < a.len()
        invariant
            a.len() == b.len(),
            i <= a.len(),
            forall|k: int| 0 <= k < i ==> (#[trigger] a@[k]).deep_view() == b@[k].deep_view(),
        decreases a.len() - i,
    {
        if a[i].0 != b[i].0 || a[i].1 != b[i].1 {
            assert(a.deep_view()[i as int] != b.deep_view()[i as int]);
            return false;
        }
        i = i + 1;
    }
    assert(a.deep_view() =~= b.deep_view());
    true
}

/// Whether `labels` holds `(key, value)`.
pub fn contains_label(labels: &Vec<(String, String)>, key: &str, value: &str) -> (r: bool)
    ensures
        r == has_label(labels.deep_view(), key@, value@),
{
    let mut i: usize = 0;
    while i < labels.len()
        invariant
            i <= labels.len(),
            forall|k: int| 0 <= k < i ==> (#[trigger] labels@[k]).deep_view() != (key@, value@),
        decreases labels.len() - i,
    {
        if text::same(labels[i].0.as_str(), key) && text::same(labels[i].1.as_str(), value) {
            assert(labels.deep_view()[i as int] == (key@, value@));
            return true;
        }
        i = i + 1;
    }
    assert forall|k: int| 0 <= k < labels.deep_view().len() implies labels.deep_view()[k] != (
        key@,
        value@,
    ) by {
        assert(labels@[k].deep_view() != (key@, value@));
    }
    false
}

/// `v` ordered by key, pairs with equal keys left in their order.
pub fn sort_labels(v: &Vec<(String, String)>) -> (r: Vec<(String, String)>)
    ensures
        r.deep_view() == sorted_by_key(v.deep_view()),
{
    let mut r: Vec<(String, String)> = Vec::new();
    let mut i: usize = 0;
    assert(v.deep_view().subrange(0, 0) =~= Seq::empty());
    assert(r.deep_view() =~= Seq::empty());
    while i < v.len()
        invariant
            i <= v.len(),
            r.len() == i,
            r.deep_view() == sorted_by_key(v.deep_view().subrange(0, i as int)),
        decreases v.len() - i,
    {
        let key = v[i].0.clone();
        let value = v[i].1.clone();
        let mut j: usize = r.len();
        while j > 0 && text::precedes(key.as_str(), r[j - 1].0.as_str())
            invariant
                j <= r.len(),
                forall|k: int| j <= k < r.len() ==> text::text_lt(key@, (#[trigger] r@[k]).0@),
            decreases j,
        {
            j = j - 1;
        }
        let ghost before = r.deep_view();
        let ghost p = (key@, value@);
        r.insert(j, (key, value));
        proof {
            assert forall|k: int| j <= k < before.len() implies text::text_lt(
                p.0,
                #[trigger] before[k].0,
            ) by {}
            lemma_insert_position(before, p, j as int);
            assert(r.deep_view() =~= before.insert(j as int, p));
            let taken = v.deep_view().subrange(0, i + 1);
            assert(taken.drop_last() =~= v.deep_view().subrange(0, i as int));
            assert(taken.last() == p);
        }
        i = i + 1;
    }
    assert(v.deep_view().subrange(0, v.len() as int) =~= v.deep_view());
    r
}

/// Labels in key order: no key comes before one that it follows in the order of
/// texts.
pub proof fn law_keys_ordered(s: Seq<Pair>, i: int, j: int)
    requires
        keys_ordered(s),
        0 <= i < j < s.len(),
    ensures
        !text::text_lt(s[j].0, s[i].0),
{
    assert(text::text_le(s[i].0, s[j].0));
}

/// A label is carried exactly where it is one of the pairs.
pub proof fn law_has_label(s: Seq<Pair>, key: Seq<char>, value: Seq<char>)
    ensures
        has_label(s, key, value) <==> exists|i: int|
            0 <= i < s.len() && (#[trigger] s[i]).0 == key && s[i].1 == value,
{
    if has_label(s, key, value) {
        let i = choose|i: int| 0 <= i < s.len() && s[i] == (key, value);
        assert(s[i].0 == key && s[i].1 == value);
    }
    if exists|i: int| 0 <= i < s.len() && (#[trigger] s[i]).0 == key && s[i].1 == value {
        let i = choose|i: int| 0 <= i < s.len() && (#[trigger] s[i]).0 == key && s[i].1 == value;
        assert(s[i] == (key, value));
    }
}

}
