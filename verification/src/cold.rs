//! Cold Parquet files: which names are served, listed and purged.
use vstd::prelude::*;
use vstd::string::*;
use crate::text;

verus! {

/// `name` is that of a cold export: `metrics_cold_*.parquet` without path
/// separators or `..`.
pub open spec fn cold_filename(name: Seq<char>) -> bool {
    &&& "metrics_cold_"@.is_prefix_of(name)
    &&& ".parquet"@.is_suffix_of(name)
    &&& !name.contains('/')
    &&& !name.contains('\\')
    &&& !text::has_pair(name, '.', '.')
}

/// Strict cold-filename check (used by the file route, purge and manifest).
#[must_use]
pub fn is_cold_filename(name: &str) -> (r: bool)
    ensures
        r == cold_filename(name@),
{
    text::starts_with(name, "metrics_cold_") && text::ends_with(name, ".parquet")
        && !text::contains_char(name, '/') && !text::contains_char(name, '\\')
        && !text::contains_pair(name, '.', '.')
}

/// The URLs of the cold files among `names`, in their order.
pub open spec fn cold_urls(names: Seq<Seq<char>>) -> Seq<Seq<char>>
    decreases names.len(),
{
    if names.len() == 0 {
        Seq::empty()
    } else if cold_filename(names.last()) {
        cold_urls(names.drop_last()).push("/telemetry/cold/"@ + names.last())
    } else {
        cold_urls(names.drop_last())
    }
}

/// The texts never go down from left to right.
pub open spec fn texts_ordered(s: Seq<Seq<char>>) -> bool {
    forall|i: int, j: int| 0 <= i < j < s.len() ==> text::text_le(#[trigger] s[i], #[trigger] s[j])
}

proof fn lemma_insert_ordered(s: Seq<Seq<char>>, j: int, x: Seq<char>)
    requires
        texts_ordered(s),
        0 <= j <= s.len(),
        forall|k: int| j <= k < s.len() ==> text::text_lt(x, #[trigger] s[k]),
        j > 0 ==> text::text_le(s[j - 1], x),
    ensures
        texts_ordered(s.insert(j, x)),
        s.insert(j, x).to_multiset() == s.to_multiset().insert(x),
{
    broadcast use vstd::seq_lib::group_to_multiset_ensures;

    let r = s.insert(j, x);
    assert forall|a: int, b: int| 0 <= a < b < r.len() implies text::text_le(
        #[trigger] r[a],
        #[trigger] r[b],
    ) by {
        if a < j {
            assert(r[a] == s[a]);
        } else if a > j {
            assert(r[a] == s[a - 1]);
        }
        if b < j {
            assert(r[b] == s[b]);
        } else if b > j {
            assert(r[b] == s[b - 1]);
        }
        if b == j && a < j - 1 {
            // s[a] <= s[j - 1] <= x
            text::lemma_text_order(x, s[a], s[j - 1]);
            text::lemma_text_order(x, s[j - 1], s[a]);
            text::lemma_text_order(s[j - 1], x, s[a]);
        }
        if a == j {
            text::lemma_text_order(x, r[b], x);
        }
    }
    assert(r.to_multiset() =~= s.to_multiset().insert(x));
}

proof fn lemma_push_multiset(s: Seq<Seq<char>>, x: Seq<char>)
    ensures
        s.push(x).to_multiset() == s.to_multiset().insert(x),
{
    broadcast use vstd::seq_lib::group_to_multiset_ensures;

    assert(s.push(x).to_multiset() =~= s.to_multiset().insert(x));
}

/// URLs of the cold Parquet files among the directory's entries (oldest first),
/// for the manifest.
#[must_use]
pub fn list_cold_files(names: &Vec<String>) -> (r: Vec<String>)
    ensures
        texts_ordered(r.deep_view()),
        r.deep_view().to_multiset() == cold_urls(names.deep_view()).to_multiset(),
{
    let mut r: Vec<String> = Vec::new();
    let mut i: usize = 0;
    let ghost all = names.deep_view();
    assert(r.deep_view() =~= Seq::empty());
    while i < names.len()
        invariant
            i <= names.len(),
            all == names.deep_view(),
            texts_ordered(r.deep_view()),
            r.deep_view().to_multiset() == cold_urls(all.subrange(0, i as int)).to_multiset(),
        decreases names.len() - i,
    {
        let ghost before = r.deep_view();
        let ghost next = all.subrange(0, i + 1);
        assert(next.drop_last() =~= all.subrange(0, i as int));
        assert(next.last() == names@[i as int]@);
        if is_cold_filename(names[i].as_str()) {
            let url = text::cat("/telemetry/cold/", names[i].as_str());
            let ghost x = url@;
            let mut j: usize = r.len();
            while j > 0 && text::precedes(url.as_str(), r[j - 1].as_str())
                invariant
                    j <= r.len(),
                    r.deep_view() == before,
                    x == url@,
                    forall|k: int| j <= k < r.len() ==> text::text_lt(x, #[trigger] before[k]),
                decreases j,
            {
                assert(before[j - 1] == r@[j - 1]@);
                j = j - 1;
            }
            proof {
                if j > 0 {
                    assert(before[j - 1] == r@[j - 1]@);
                }
                lemma_insert_ordered(before, j as int, x);
            }
            r.insert(j, url);
            assert(r.deep_view() =~= before.insert(j as int, x));
            assert(cold_urls(next) == cold_urls(next.drop_last()).push(x));
            proof {
                lemma_push_multiset(cold_urls(next.drop_last()), x);
            }
        }
        i = i + 1;
    }
    assert(all.subrange(0, i as int) =~= all);
    r
}

/// Seconds in that many days, as far as a `u64` counts.
pub open spec fn days_secs(days: u64) -> u64 {
    if days * 86_400 <= u64::MAX {
        (days * 86_400) as u64
    } else {
        u64::MAX
    }
}

/// Seconds in that many days (retention and purge horizons).
pub fn days_to_secs(days: u64) -> (r: u64)
    ensures
        r == days_secs(days),
{
    match days.checked_mul(86_400) {
        Some(n) => n,
        None => u64::MAX,
    }
}

/// A file of the cold directory.
#[derive(Debug)]
pub struct ColdEntry {
    /// File name.
    pub name: String,
    /// When it was last modified, nanoseconds since the Unix epoch; `None`
    /// where that cannot be read.
    pub modified: Option<i128>,
}

/// What a [`ColdEntry`] holds.
pub struct ColdEntryView {
    pub name: Seq<char>,
    pub modified: Option<i128>,
}

impl DeepView for ColdEntry {
    type V = ColdEntryView;

    open spec fn deep_view(&self) -> ColdEntryView {
        ColdEntryView { name: self.name@, modified: self.modified }
    }
}

/// The file is a cold export last modified before the cutoff.
pub open spec fn expired(e: ColdEntryView, cutoff: i128) -> bool {
    cold_filename(e.name) && e.modified is Some && e.modified->0 < cutoff
}

/// The names of the expired files, in order.
pub open spec fn expired_names(entries: Seq<ColdEntryView>, cutoff: i128) -> Seq<Seq<char>>
    decreases entries.len(),
{
    if entries.len() == 0 {
        Seq::empty()
    } else if expired(entries.last(), cutoff) {
        expired_names(entries.drop_last(), cutoff).push(entries.last().name)
    } else {
        expired_names(entries.drop_last(), cutoff)
    }
}

/// The cold files to delete: those last modified before the cutoff. Other files
/// are never touched.
pub fn expired_cold_files(entries: &Vec<ColdEntry>, cutoff: i128) -> (r: Vec<String>)
    ensures
        r.deep_view() == expired_names(entries.deep_view(), cutoff),
{
    let mut r: Vec<String> = Vec::new();
    let mut i: usize = 0;
    let ghost all = entries.deep_view();
    assert(r.deep_view() =~= Seq::empty());
    while i < entries.len()
        invariant
            i <= entries.len(),
            all == entries.deep_view(),
            r.deep_view() == expired_names(all.subrange(0, i as int), cutoff),
        decreases entries.len() - i,
    {
        let ghost before = r.deep_view();
        assert(all.subrange(0, i + 1).drop_last() =~= all.subrange(0, i as int));
        assert(all.subrange(0, i + 1).last() == entries@[i as int].deep_view());
        let old: bool = match entries[i].modified {
            Some(t) => t < cutoff,
            None => false,
        };
        if old && is_cold_filename(entries[i].name.as_str()) {
            r.push(entries[i].name.clone());
            assert(r.deep_view() =~= before.push(all[i as int].name));
        }
        i = i + 1;
    }
    assert(all.subrange(0, i as int) =~= all);
    r
}

/// A served file cannot lie outside the cold directory: its name is one path
/// component, neither `.` nor `..`, and not empty.
pub proof fn law_cold_file_stays_inside(name: Seq<char>)
    requires
        cold_filename(name),
    ensures
        text::split(name, '/') == seq![name],
        text::split(name, '\\') == seq![name],
        name.len() > 2,
        name != "."@,
        name != ".."@,
{
    reveal_strlit("metrics_cold_");
    reveal_strlit(".");
    reveal_strlit("..");
    text::lemma_find(name, '/');
    text::lemma_find(name, '\\');
    assert("metrics_cold_"@.len() == 13);
}

/// Purging deletes cold exports past the cutoff, all of them and nothing else.
pub proof fn law_purge(entries: Seq<ColdEntryView>, cutoff: i128, name: Seq<char>)
    ensures
        expired_names(entries, cutoff).contains(name) <==> exists|i: int|
            0 <= i < entries.len() && expired(#[trigger] entries[i], cutoff) && entries[i].name
                == name,
        expired_names(entries, cutoff).contains(name) ==> cold_filename(name),
    decreases entries.len(),
{
    if entries.len() > 0 {
        let init = entries.drop_last();
        let last = entries.last();
        law_purge(init, cutoff, name);
        let before = expired_names(init, cutoff);
        let all = expired_names(entries, cutoff);
        assert(entries[entries.len() - 1] == last);
        if before.contains(name) {
            let i = choose|i: int| 0 <= i < before.len() && before[i] == name;
            assert(all[i] == name);
            let k = choose|k: int|
                0 <= k < init.len() && expired(#[trigger] init[k], cutoff) && init[k].name == name;
            assert(entries[k] == init[k]);
        }
        if expired(last, cutoff) && last.name == name {
            assert(all[before.len() as int] == name);
        }
        if all.contains(name) && !before.contains(name) {
            let i = choose|i: int| 0 <= i < all.len() && all[i] == name;
            if i < before.len() {
                assert(before[i] == name);
            }
        }
        if exists|i: int|
            0 <= i < entries.len() && expired(#[trigger] entries[i], cutoff) && entries[i].name
                == name {
            let i = choose|i: int|
                0 <= i < entries.len() && expired(#[trigger] entries[i], cutoff) && entries[i].name
                    == name;
            if i < init.len() {
                assert(init[i] == entries[i]);
            }
        }
    }
}

/// The manifest lists every cold file of the directory and nothing else.
pub proof fn law_manifest(names: Seq<Seq<char>>, name: Seq<char>)
    ensures
        cold_urls(names).contains("/telemetry/cold/"@ + name) <==> names.contains(name)
            && cold_filename(name),
    decreases names.len(),
{
    let url = "/telemetry/cold/"@ + name;
    if names.len() > 0 {
        let init = names.drop_last();
        let last = names.last();
        law_manifest(init, name);
        let before = cold_urls(init);
        let all = cold_urls(names);
        assert(names[names.len() - 1] == last);
        if before.contains(url) {
            let k = choose|k: int| 0 <= k < before.len() && before[k] == url;
            assert(all[k] == url);
        }
        if init.contains(name) {
            let k = choose|k: int| 0 <= k < init.len() && init[k] == name;
            assert(names[k] == name);
        }
        if names.contains(name) && last != name {
            let k = choose|k: int| 0 <= k < names.len() && names[k] == name;
            assert(init[k] == name);
        }
        if last == name && cold_filename(name) {
            assert(all[before.len() as int] == url);
        }
        if all.contains(url) && !before.contains(url) {
            let k = choose|k: int| 0 <= k < all.len() && all[k] == url;
            if k < before.len() {
                assert(before[k] == url);
            }
            assert("/telemetry/cold/"@ + last == url);
            let n = "/telemetry/cold/"@.len() as int;
            assert(url.subrange(n, url.len() as int) =~= name);
            assert(("/telemetry/cold/"@ + last).subrange(n, url.len() as int) =~= last);
        }
    }
}

/// A cold filename begins with `metrics_cold_` and ends with `.parquet`, and
/// holds no slash, no backslash and no two dots in a row; every such name is one.
pub proof fn law_cold_filename(name: Seq<char>, middle: Seq<char>)
    ensures
        cold_filename(name) ==> name.len() >= 13 && name.subrange(0, 13) == "metrics_cold_"@,
        cold_filename(name) ==> name.len() >= 8 && name.subrange(
            name.len() - 8,
            name.len() as int,
        ) == ".parquet"@,
        cold_filename(name) ==> forall|i: int|
            0 <= i < name.len() ==> #[trigger] name[i] != '/' && name[i] != '\\',
        cold_filename(name) ==> forall|i: int|
            0 <= i < name.len() - 1 ==> !(#[trigger] name[i] == '.' && name[i + 1] == '.'),
        (forall|i: int|
            0 <= i < middle.len() ==> #[trigger] middle[i] != '/' && middle[i] != '\\' && middle[i]
                != '.') ==> cold_filename("metrics_cold_"@ + middle + ".parquet"@),
{
    reveal_strlit("metrics_cold_");
    reveal_strlit(".parquet");
    if cold_filename(name) {
        assert("metrics_cold_"@.len() == 13);
        assert(".parquet"@.len() == 8);
        assert forall|i: int| 0 <= i < name.len() implies #[trigger] name[i] != '/' && name[i]
            != '\\' by {
            assert(name.contains(name[i]));
        }
    }
    if forall|i: int|
        0 <= i < middle.len() ==> #[trigger] middle[i] != '/' && middle[i] != '\\' && middle[i]
            != '.' {
        let a = "metrics_cold_"@;
        let z = ".parquet"@;
        let s = a + middle + z;
        let n = a.len() + middle.len();
        assert(s.subrange(0, a.len() as int) =~= a);
        assert(s.subrange(n as int, s.len() as int) =~= z);
        assert forall|i: int| 0 <= i < s.len() implies #[trigger] s[i] != '/' && s[i] != '\\' && (i
            != n ==> s[i] != '.') by {
            if i < a.len() {
                assert(s[i] == a[i]);
            } else if i < n {
                assert(s[i] == middle[i - a.len()]);
            } else {
                assert(s[i] == z[i - n]);
            }
        }
        assert(!text::has_pair(s, '.', '.'));
        assert(a.is_prefix_of(s));
        assert(z.is_suffix_of(s));
    }
}

/// One directory entry more: it is listed behind the others, under
/// `/telemetry/cold/`, exactly where its name is that of a cold file; and it is
/// expired exactly where, besides, it was last modified before the cutoff.
pub proof fn law_one_more_file(
    names: Seq<Seq<char>>,
    name: Seq<char>,
    entries: Seq<ColdEntryView>,
    e: ColdEntryView,
    cutoff: i128,
)
    ensures
        cold_urls(Seq::<Seq<char>>::empty()).len() == 0,
        cold_filename(name) ==> cold_urls(names.push(name)) == cold_urls(names).push(
            "/telemetry/cold/"@ + name,
        ),
        !cold_filename(name) ==> cold_urls(names.push(name)) == cold_urls(names),
        expired_names(Seq::<ColdEntryView>::empty(), cutoff).len() == 0,
        cold_filename(e.name) && e.modified is Some && e.modified->0 < cutoff ==> expired_names(
            entries.push(e),
            cutoff,
        ) == expired_names(entries, cutoff).push(e.name),
        !(cold_filename(e.name) && e.modified is Some && e.modified->0 < cutoff) ==> expired_names(
            entries.push(e),
            cutoff,
        ) == expired_names(entries, cutoff),
{
    assert(names.push(name).drop_last() =~= names);
    assert(entries.push(e).drop_last() =~= entries);
}

/// The listed files are in the order of texts.
pub proof fn law_listed_in_order(s: Seq<Seq<char>>, i: int, j: int)
    requires
        texts_ordered(s),
        0 <= i < j < s.len(),
    ensures
        !text::text_lt(s[j], s[i]),
{
    assert(text::text_le(s[i], s[j]));
}

/// A day has 24 hours of 3,600 seconds; a count that does not fit stays at the
/// greatest number.
pub proof fn law_days(days: u64)
    ensures
        days * (24 * 3_600) <= u64::MAX ==> days_secs(days) == days * (24 * 3_600),
        days * (24 * 3_600) > u64::MAX ==> days_secs(days) == u64::MAX,
{
}

}
