//! Text helpers: trimming, searching, splitting, ordering and number
//! spelling over `&str`, each stated over the sequence of characters.
use vstd::prelude::*;
use vstd::string::*;

verus! {

/// Unicode `White_Space`, the property behind trimming.
pub open spec fn is_space(c: char) -> bool {
    ||| '\u{9}' <= c <= '\u{d}'
    ||| c == ' '
    ||| c == '\u{85}'
    ||| c == '\u{a0}'
    ||| c == '\u{1680}'
    ||| '\u{2000}' <= c <= '\u{200a}'
    ||| c == '\u{2028}'
    ||| c == '\u{2029}'
    ||| c == '\u{202f}'
    ||| c == '\u{205f}'
    ||| c == '\u{3000}'
}

/// Every character is white space (the empty text counts).
pub open spec fn blank(s: Seq<char>) -> bool {
    forall|i: int| 0 <= i < s.len() ==> is_space(#[trigger] s[i])
}

/// `s` without its leading white space.
pub open spec fn trim_start(s: Seq<char>) -> Seq<char>
    decreases s.len(),
{
    if s.len() > 0 && is_space(s[0]) {
        trim_start(s.subrange(1, s.len() as int))
    } else {
        s
    }
}

/// `s` without its trailing white space.
pub open spec fn trim_end(s: Seq<char>) -> Seq<char>
    decreases s.len(),
{
    if s.len() > 0 && is_space(s.last()) {
        trim_end(s.drop_last())
    } else {
        s
    }
}

/// `s` without white space at either end.
pub open spec fn trimmed(s: Seq<char>) -> Seq<char> {
    trim_end(trim_start(s))
}

pub(crate) proof fn lemma_trim_start_at(s: Seq<char>, i: int)
    requires
        0 <= i <= s.len(),
        forall|k: int| 0 <= k < i ==> is_space(#[trigger] s[k]),
        i < s.len() ==> !is_space(s[i]),
    ensures
        trim_start(s) == s.subrange(i, s.len() as int),
    decreases i,
{
    if i > 0 {
        let rest = s.subrange(1, s.len() as int);
        assert forall|k: int| 0 <= k < i - 1 implies is_space(#[trigger] rest[k]) by {
            assert(rest[k] == s[k + 1]);
        }
        lemma_trim_start_at(rest, i - 1);
        assert(rest.subrange(i - 1, rest.len() as int) =~= s.subrange(i, s.len() as int));
        assert(is_space(s[0]));
    } else {
        assert(s.subrange(0, s.len() as int) =~= s);
    }
}

pub(crate) proof fn lemma_trim_end_at(s: Seq<char>, j: int)
    requires
        0 <= j <= s.len(),
        forall|k: int| j <= k < s.len() ==> is_space(#[trigger] s[k]),
        j > 0 ==> !is_space(s[j - 1]),
    ensures
        trim_end(s) == s.subrange(0, j),
    decreases s.len() - j,
{
    if j < s.len() {
        lemma_trim_end_at(s.drop_last(), j);
        assert(s.drop_last().subrange(0, j) =~= s.subrange(0, j));
    } else {
        assert(s.subrange(0, j) =~= s);
    }
}

/// Whether `c` is Unicode white space.
pub fn is_whitespace(c: char) -> (r: bool)
    ensures
        r == is_space(c),
{
    ('\u{9}' <= c && c <= '\u{d}') || c == ' ' || c == '\u{85}' || c == '\u{a0}' || c == '\u{1680}'
        || ('\u{2000}' <= c && c <= '\u{200a}') || c == '\u{2028}' || c == '\u{2029}' || c
        == '\u{202f}' || c == '\u{205f}' || c == '\u{3000}'
}

/// The characters of `s`.
pub fn chars_of(s: &str) -> (r: Vec<char>)
    ensures
        r@ == s@,
{
    let mut r: Vec<char> = Vec::new();
    for c in it: s.chars()
        invariant
            it.seq() == s@,
            r@ == s@.subrange(0, it.index()),
    {
        r.push(c);
        assert(r@ =~= s@.subrange(0, it.index() + 1));
    }
    assert(s@.subrange(0, s@.len() as int) =~= s@);
    r
}

/// `s` without white space at either end.
pub fn trim(s: &str) -> (r: &str)
    ensures
        r@ == trimmed(s@),
{
    let v = chars_of(s);
    let n: usize = v.len();
    let mut i: usize = 0;
    while i < n && is_whitespace(v[i])
        invariant
            i <= n,
            n == v.len(),
            forall|k: int| 0 <= k < i ==> is_space(#[trigger] v@[k]),
        decreases n - i,
    {
        i = i + 1;
    }
    let mut j: usize = n;
    while j > i && is_whitespace(v[j - 1])
        invariant
            i <= j <= n,
            n == v.len(),
            forall|k: int| j <= k < n ==> is_space(#[trigger] v@[k]),
        decreases j,
    {
        j = j - 1;
    }
    proof {
        lemma_trim_start_at(s@, i as int);
        let t = s@.subrange(i as int, n as int);
        assert forall|k: int| j - i <= k < t.len() implies is_space(#[trigger] t[k]) by {
            assert(t[k] == s@[k + i]);
        }
        lemma_trim_end_at(t, j - i);
        assert(t.subrange(0, j - i) =~= s@.subrange(i as int, j as int));
    }
    s.substring_char(i, j)
}


/// Where the trimmed text stands in `s`: from the first of the two positions to
/// before the second.
pub(crate) proof fn lemma_trimmed_range(s: Seq<char>) -> (r: (int, int))
    ensures
        0 <= r.0 <= r.1 <= s.len(),
        trimmed(s) == s.subrange(r.0, r.1),
        forall|k: int| 0 <= k < r.0 ==> is_space(#[trigger] s[k]),
        forall|k: int| r.1 <= k < s.len() ==> is_space(#[trigger] s[k]),
{
    let a = lemma_trim_start_range(s);
    let b = lemma_trim_end_range(trim_start(s));
    assert forall|k: int| a + b <= k < s.len() implies is_space(#[trigger] s[k]) by {
        assert(is_space(trim_start(s)[k - a]));
    }
    assert(s.subrange(a, s.len() as int).subrange(0, b) =~= s.subrange(a, a + b));
    (a, a + b)
}

proof fn lemma_trim_start_range(s: Seq<char>) -> (i: int)
    ensures
        0 <= i <= s.len(),
        trim_start(s) == s.subrange(i, s.len() as int),
        forall|k: int| 0 <= k < i ==> is_space(#[trigger] s[k]),
    decreases s.len(),
{
    if s.len() > 0 && is_space(s[0]) {
        let rest = s.subrange(1, s.len() as int);
        let i = lemma_trim_start_range(rest);
        assert forall|k: int| 0 <= k < i + 1 implies is_space(#[trigger] s[k]) by {
            if k > 0 {
                assert(rest[k - 1] == s[k]);
            }
        }
        assert(rest.subrange(i, rest.len() as int) =~= s.subrange(i + 1, s.len() as int));
        i + 1
    } else {
        assert(s.subrange(0, s.len() as int) =~= s);
        0
    }
}

proof fn lemma_trim_end_range(s: Seq<char>) -> (j: int)
    ensures
        0 <= j <= s.len(),
        trim_end(s) == s.subrange(0, j),
        forall|k: int| j <= k < s.len() ==> is_space(#[trigger] s[k]),
    decreases s.len(),
{
    if s.len() > 0 && is_space(s.last()) {
        let j = lemma_trim_end_range(s.drop_last());
        assert(is_space(s[s.len() - 1]));
        assert forall|k: int| j <= k < s.len() implies is_space(#[trigger] s[k]) by {
            if k < s.len() - 1 {
                assert(is_space(s.drop_last()[k]));
            }
        }
        assert(s.drop_last().subrange(0, j) =~= s.subrange(0, j));
        j
    } else {
        assert(s.subrange(0, s.len() as int) =~= s);
        s.len() as int
    }
}

/// A text that neither begins nor ends with white space is its own trimmed text.
pub proof fn lemma_trimmed_same(s: Seq<char>)
    requires
        s.len() > 0,
        !is_space(s[0]),
        !is_space(s.last()),
    ensures
        trimmed(s) == s,
{
    lemma_trim_start_at(s, 0);
    assert(s.subrange(0, s.len() as int) =~= s);
    lemma_trim_end_at(s, s.len() as int);
}

/// White space around a text that has none at its ends is trimmed away.
pub proof fn lemma_trimmed_padded(before: Seq<char>, s: Seq<char>, after: Seq<char>)
    requires
        blank(before),
        blank(after),
        s.len() > 0,
        !is_space(s[0]),
        !is_space(s.last()),
    ensures
        trimmed(before + s + after) == s,
{
    let all = before + s + after;
    let n = before.len() as int;
    assert forall|k: int| 0 <= k < n implies is_space(#[trigger] all[k]) by {
        assert(all[k] == before[k]);
    }
    assert(all[n] == s[0]);
    lemma_trim_start_at(all, n);
    let rest = all.subrange(n, all.len() as int);
    let m = s.len() as int;
    assert(rest =~= s + after);
    assert forall|k: int| m <= k < rest.len() implies is_space(#[trigger] rest[k]) by {
        assert(rest[k] == after[k - m]);
    }
    assert(rest[m - 1] == s.last());
    lemma_trim_end_at(rest, m);
    assert(rest.subrange(0, m) =~= s);
}

/// What is left of trimming neither begins nor ends with white space.
pub proof fn lemma_trimmed_ends(s: Seq<char>)
    ensures
        trimmed(s).len() > 0 ==> !is_space(trimmed(s)[0]) && !is_space(trimmed(s).last()),
    decreases s.len(),
{
    if s.len() > 0 && is_space(s[0]) {
        lemma_trimmed_ends(s.subrange(1, s.len() as int));
    } else if s.len() > 0 {
        lemma_trim_end_ends(s);
    }
}

proof fn lemma_trim_end_ends(s: Seq<char>)
    requires
        s.len() > 0,
        !is_space(s[0]),
    ensures
        trim_end(s).len() > 0,
        trim_end(s)[0] == s[0],
        !is_space(trim_end(s).last()),
    decreases s.len(),
{
    if is_space(s.last()) {
        lemma_trim_end_ends(s.drop_last());
    }
}

/// Where `c` first stands in `s`, or `s.len()` where it does not.
pub open spec fn find(s: Seq<char>, c: char) -> nat
    decreases s.len(),
{
    if s.len() == 0 || s[0] == c {
        0
    } else {
        1 + find(s.subrange(1, s.len() as int), c)
    }
}

/// [`find`] is the first position that holds `c`.
pub proof fn lemma_find(s: Seq<char>, c: char)
    ensures
        find(s, c) <= s.len(),
        forall|k: int| 0 <= k < find(s, c) ==> #[trigger] s[k] != c,
        find(s, c) < s.len() ==> s[find(s, c) as int] == c,
        find(s, c) < s.len() <==> s.contains(c),
    decreases s.len(),
{
    if s.len() > 0 && s[0] != c {
        let rest = s.subrange(1, s.len() as int);
        lemma_find(rest, c);
        assert forall|k: int| 0 <= k < find(s, c) implies #[trigger] s[k] != c by {
            if k > 0 {
                assert(rest[k - 1] == s[k]);
            }
        }
        if s.contains(c) {
            let k = choose|k: int| 0 <= k < s.len() && s[k] == c;
            assert(rest[k - 1] == c);
        }
        if find(s, c) < s.len() {
            assert(s[find(s, c) as int] == rest[find(rest, c) as int]);
        }
    } else if s.len() > 0 {
        assert(s.contains(s[0]));
    }
}

pub(crate) proof fn lemma_find_at(s: Seq<char>, c: char, i: int)
    requires
        0 <= i <= s.len(),
        forall|k: int| 0 <= k < i ==> #[trigger] s[k] != c,
        i < s.len() ==> s[i] == c,
    ensures
        find(s, c) == i,
{
    lemma_find(s, c);
    if find(s, c) < i {
        assert(s[find(s, c) as int] != c);
    }
}

/// The pieces of `s` between the occurrences of `c`; one piece where there is
/// none.
pub open spec fn split(s: Seq<char>, c: char) -> Seq<Seq<char>>
    decreases s.len(),
{
    let i = find(s, c) as int;
    if i < s.len() {
        seq![s.subrange(0, i)] + split(s.subrange(i + 1, s.len() as int), c)
    } else {
        seq![s]
    }
}

/// The texts of `parts`, with `c` between each and the next.
pub open spec fn join(parts: Seq<Seq<char>>, c: char) -> Seq<char>
    decreases parts.len(),
{
    if parts.len() == 0 {
        Seq::empty()
    } else if parts.len() == 1 {
        parts[0]
    } else {
        parts[0].push(c) + join(parts.subrange(1, parts.len() as int), c)
    }
}

/// Splitting undoes joining, where no part holds the separator.
pub proof fn law_split_join(parts: Seq<Seq<char>>, c: char)
    requires
        parts.len() > 0,
        forall|i: int| 0 <= i < parts.len() ==> !(#[trigger] parts[i]).contains(c),
    ensures
        split(join(parts, c), c) == parts,
    decreases parts.len(),
{
    let s = join(parts, c);
    let first = parts[0];
    let n = first.len() as int;
    if parts.len() == 1 {
        lemma_find(s, c);
        assert(split(s, c) =~= parts);
    } else {
        let rest = parts.subrange(1, parts.len() as int);
        assert forall|i: int| 0 <= i < rest.len() implies !(#[trigger] rest[i]).contains(c) by {
            assert(rest[i] == parts[i + 1]);
        }
        law_split_join(rest, c);
        assert forall|k: int| 0 <= k < n implies #[trigger] s[k] != c by {
            assert(s[k] == first[k]);
        }
        assert(s[n] == c);
        lemma_find_at(s, c, n);
        assert(s.subrange(0, n) =~= first);
        assert(s.subrange(n + 1, s.len() as int) =~= join(rest, c));
        assert(split(s, c) =~= parts);
    }
}

/// The two characters `a` and `b` stand next to each other somewhere in `s`.
pub open spec fn has_pair(s: Seq<char>, a: char, b: char) -> bool {
    exists|i: int| 0 <= i < s.len() - 1 && #[trigger] s[i] == a && s[i + 1] == b
}

/// Lexicographic order by code point, the order of strings.
pub open spec fn text_lt(a: Seq<char>, b: Seq<char>) -> bool
    decreases a.len(),
{
    if b.len() == 0 {
        false
    } else if a.len() == 0 {
        true
    } else if a[0] != b[0] {
        a[0] < b[0]
    } else {
        text_lt(a.subrange(1, a.len() as int), b.subrange(1, b.len() as int))
    }
}

/// `a` is not after `b`.
pub open spec fn text_le(a: Seq<char>, b: Seq<char>) -> bool {
    !text_lt(b, a)
}

/// The order of texts is a strict total order.
pub proof fn lemma_text_order(a: Seq<char>, b: Seq<char>, c: Seq<char>)
    ensures
        !text_lt(a, a),
        text_lt(a, b) ==> !text_lt(b, a),
        text_lt(a, b) || text_lt(b, a) || a == b,
        text_lt(a, b) && text_lt(b, c) ==> text_lt(a, c),
    decreases a.len() + b.len() + c.len(),
{
    let ra = a.subrange(1, a.len() as int);
    let rb = b.subrange(1, b.len() as int);
    let rc = c.subrange(1, c.len() as int);
    if a.len() > 0 && b.len() > 0 && c.len() > 0 {
        lemma_text_order(ra, rb, rc);
    } else if a.len() > 0 && b.len() > 0 {
        lemma_text_order(ra, rb, c);
    } else if a.len() > 0 {
        lemma_text_order(ra, b, c);
    }
    if a.len() > 0 && b.len() > 0 && a[0] == b[0] && ra == rb {
        assert forall|i: int| 0 <= i < a.len() implies a[i] == b[i] by {
            if i > 0 {
                assert(ra[i - 1] == a[i]);
                assert(rb[i - 1] == b[i]);
            }
        }
        assert(a.len() == b.len());
        assert(a =~= b);
    }
    if a.len() == 0 && b.len() == 0 {
        assert(a =~= b);
    }
}

/// The decimal digit `d`.
pub open spec fn digit(d: nat) -> char {
    if d == 0 {
        '0'
    } else if d == 1 {
        '1'
    } else if d == 2 {
        '2'
    } else if d == 3 {
        '3'
    } else if d == 4 {
        '4'
    } else if d == 5 {
        '5'
    } else if d == 6 {
        '6'
    } else if d == 7 {
        '7'
    } else if d == 8 {
        '8'
    } else {
        '9'
    }
}

/// `n` in decimal, without leading zeros.
pub open spec fn decimal(n: nat) -> Seq<char>
    decreases n,
{
    if n < 10 {
        seq![digit(n)]
    } else {
        decimal(n / 10).push(digit(n % 10))
    }
}

/// Different numbers have different decimal spellings.
pub proof fn lemma_decimal_injective(m: nat, n: nat)
    requires
        decimal(m) == decimal(n),
    ensures
        m == n,
    decreases m,
{
    assert(decimal(m).last() == digit(m % 10)) by {
        if m < 10 {
            assert(m % 10 == m);
        }
    }
    assert(decimal(n).last() == digit(n % 10)) by {
        if n < 10 {
            assert(n % 10 == n);
        }
    }
    assert(m % 10 == n % 10);
    lemma_decimal_len(m);
    lemma_decimal_len(n);
    if m < 10 {
        if n >= 10 {
            lemma_decimal_len(n / 10);
        }
    } else {
        if n < 10 {
            lemma_decimal_len(m / 10);
        }
        assert(decimal(m).drop_last() =~= decimal(m / 10));
        assert(decimal(n).drop_last() =~= decimal(n / 10));
        lemma_decimal_injective(m / 10, n / 10);
    }
}

proof fn lemma_decimal_len(n: nat)
    ensures
        decimal(n).len() >= 1,
    decreases n,
{
    if n >= 10 {
        lemma_decimal_len(n / 10);
    }
}

/// A decimal spelling holds digits only, so no character that is not one.
pub proof fn lemma_decimal_digits(n: nat, c: char)
    requires
        c < '0' || c > '9',
    ensures
        !decimal(n).contains(c),
    decreases n,
{
    if n >= 10 {
        lemma_decimal_digits(n / 10, c);
        if decimal(n).contains(c) {
            let i = choose|i: int| 0 <= i < decimal(n).len() && decimal(n)[i] == c;
            if i < decimal(n / 10).len() {
                assert(decimal(n / 10)[i] == c);
                assert(decimal(n / 10).contains(c));
            }
        }
    }
}

/// `std::string::String::push`: the character is appended.
pub assume_specification[ String::push ](s: &mut String, c: char)
    ensures
        final(s)@ == old(s)@.push(c),
;

/// What `{:?}` prints for a text: the text between double quotes, with the
/// characters escaped that std's `Debug` for `str` escapes.
pub uninterp spec fn debug_text(s: Seq<char>) -> Seq<char>;

/// std's `Debug` formatting of a `str`. The contract names the printed text
/// and says no more of it: which characters are escaped is std's own rule.
#[verifier::external_body]
pub(crate) fn quoted(s: &str) -> (r: String)
    ensures
        r@ == debug_text(s@),
{
    format!("{:?}", s)
}

/// The text made of `v[from..to]`.
pub fn text_of(v: &Vec<char>, from: usize, to: usize) -> (r: String)
    requires
        from <= to <= v.len(),
    ensures
        r@ == v@.subrange(from as int, to as int),
{
    let mut r: String = String::new();
    let mut i: usize = from;
    while i < to
        invariant
            from <= i <= to <= v.len(),
            r@ == v@.subrange(from as int, i as int),
        decreases to - i,
    {
        r.push(v[i]);
        i = i + 1;
        assert(r@ =~= v@.subrange(from as int, i as int));
    }
    r
}

/// `a` followed by `b`.
pub fn cat(a: &str, b: &str) -> (r: String)
    ensures
        r@ == a@ + b@,
{
    let mut r: String = a.to_string();
    r.append(b);
    r
}

/// `a`, `b` and `c` in a row.
pub fn cat3(a: &str, b: &str, c: &str) -> (r: String)
    ensures
        r@ == a@ + b@ + c@,
{
    let mut r: String = cat(a, b);
    r.append(c);
    r
}

/// Whether `a` and `b` hold the same characters.
pub fn same(a: &str, b: &str) -> (r: bool)
    ensures
        r == (a@ == b@),
{
    let x = chars_of(a);
    let y = chars_of(b);
    if x.len() != y.len() {
        return false;
    }
    let mut i: usize = 0;
    while i < x.len()
        invariant
            x.len() == y.len(),
            i <= x.len(),
            forall|k: int| 0 <= k < i ==> x@[k] == y@[k],
            x@ == a@,
            y@ == b@,
        decreases x.len() - i,
    {
        if x[i] != y[i] {
            return false;
        }
        i = i + 1;
    }
    assert(a@ =~= b@);
    true
}

/// Whether `s` begins with `p`.
pub fn starts_with(s: &str, p: &str) -> (r: bool)
    ensures
        r == p@.is_prefix_of(s@),
{
    let x = chars_of(s);
    let y = chars_of(p);
    if x.len() < y.len() {
        return false;
    }
    let mut i: usize = 0;
    while i < y.len()
        invariant
            x.len() >= y.len(),
            i <= y.len(),
            forall|k: int| 0 <= k < i ==> x@[k] == y@[k],
            x@ == s@,
            y@ == p@,
        decreases y.len() - i,
    {
        if x[i] != y[i] {
            assert(s@.subrange(0, y.len() as int)[i as int] != p@[i as int]);
            return false;
        }
        i = i + 1;
    }
    assert(s@.subrange(0, y.len() as int) =~= p@);
    true
}

/// Whether `s` ends with `p`.
pub fn ends_with(s: &str, p: &str) -> (r: bool)
    ensures
        r == p@.is_suffix_of(s@),
{
    let x = chars_of(s);
    let y = chars_of(p);
    if x.len() < y.len() {
        return false;
    }
    let d: usize = x.len() - y.len();
    let mut i: usize = 0;
    while i < y.len()
        invariant
            x.len() == y.len() + d,
            i <= y.len(),
            forall|k: int| 0 <= k < i ==> x@[k + d] == y@[k],
            x@ == s@,
            y@ == p@,
        decreases y.len() - i,
    {
        if x[i + d] != y[i] {
            assert(s@.subrange(d as int, x.len() as int)[i as int] != p@[i as int]);
            return false;
        }
        i = i + 1;
    }
    assert(s@.subrange(d as int, x.len() as int) =~= p@);
    true
}

/// Where `c` first stands in `v`, or the length of `v`.
pub fn find_char(v: &Vec<char>, c: char) -> (r: usize)
    ensures
        r == find(v@, c),
        r <= v.len(),
{
    let mut i: usize = 0;
    while i < v.len() && v[i] != c
        invariant
            i <= v.len(),
            forall|k: int| 0 <= k < i ==> #[trigger] v@[k] != c,
        decreases v.len() - i,
    {
        i = i + 1;
    }
    proof {
        lemma_find_at(v@, c, i as int);
    }
    i
}

/// Whether `s` holds `c`.
pub fn contains_char(s: &str, c: char) -> (r: bool)
    ensures
        r == s@.contains(c),
{
    let v = chars_of(s);
    let i: usize = find_char(&v, c);
    proof {
        lemma_find(s@, c);
    }
    i < v.len()
}

/// Whether `a` and `b` stand next to each other in `s`.
pub fn contains_pair(s: &str, a: char, b: char) -> (r: bool)
    ensures
        r == has_pair(s@, a, b),
{
    let v = chars_of(s);
    if v.len() < 2 {
        return false;
    }
    let mut i: usize = 0;
    while i < v.len() - 1
        invariant
            v.len() >= 2,
            v@ == s@,
            i <= v.len() - 1,
            forall|k: int| 0 <= k < i ==> !(#[trigger] v@[k] == a && v@[k + 1] == b),
        decreases v.len() - i,
    {
        if v[i] == a && v[i + 1] == b {
            assert(s@[i as int] == a && s@[i + 1] == b);
            return true;
        }
        i = i + 1;
    }
    false
}

/// The pieces of `s` between the occurrences of `c`.
pub fn split_on(s: &str, c: char) -> (r: Vec<String>)
    ensures
        r.deep_view() == split(s@, c),
{
    let v = chars_of(s);
    let mut r: Vec<String> = Vec::new();
    let mut from: usize = 0;
    let mut i: usize = 0;
    assert(v@.subrange(0, v.len() as int) =~= v@);
    assert(r.deep_view() + split(v@, c) =~= split(v@, c));
    while i < v.len()
        invariant
            v@ == s@,
            from <= i <= v.len(),
            forall|k: int| from <= k < i ==> #[trigger] v@[k] != c,
            r.deep_view() + split(v@.subrange(from as int, v.len() as int), c) == split(s@, c),
        decreases v.len() - i,
    {
        if v[i] == c {
            let ghost before = r.deep_view();
            let ghost rest = v@.subrange(from as int, v.len() as int);
            proof {
                assert forall|k: int| 0 <= k < i - from implies #[trigger] rest[k] != c by {
                    assert(rest[k] == v@[k + from]);
                }
                lemma_find_at(rest, c, i - from);
                assert(rest.subrange(i - from + 1, rest.len() as int) =~= v@.subrange(
                    i + 1,
                    v.len() as int,
                ));
                assert(rest.subrange(0, i - from) =~= v@.subrange(from as int, i as int));
            }
            let piece = text_of(&v, from, i);
            r.push(piece);
            from = i + 1;
            assert(r.deep_view() =~= before.push(piece@));
            assert(before.push(piece@) + split(v@.subrange(from as int, v.len() as int), c)
                =~= before + (seq![piece@] + split(
                v@.subrange(from as int, v.len() as int),
                c,
            )));
        }
        i = i + 1;
    }
    let ghost before = r.deep_view();
    let ghost rest = v@.subrange(from as int, v.len() as int);
    proof {
        assert forall|k: int| 0 <= k < rest.len() implies #[trigger] rest[k] != c by {
            assert(rest[k] == v@[k + from]);
        }
        lemma_find_at(rest, c, rest.len() as int);
    }
    let piece = text_of(&v, from, v.len());
    r.push(piece);
    assert(r.deep_view() =~= before + seq![rest]);
    r
}

/// Whether `a` comes before `b`.
pub fn precedes(a: &str, b: &str) -> (r: bool)
    ensures
        r == text_lt(a@, b@),
{
    let x = chars_of(a);
    let y = chars_of(b);
    let mut i: usize = 0;
    assert(x@.subrange(0, x.len() as int) =~= x@);
    assert(y@.subrange(0, y.len() as int) =~= y@);
    while i < x.len() && i < y.len() && x[i] == y[i]
        invariant
            x@ == a@,
            y@ == b@,
            i <= x.len(),
            i <= y.len(),
            text_lt(a@, b@) == text_lt(
                x@.subrange(i as int, x.len() as int),
                y@.subrange(i as int, y.len() as int),
            ),
        decreases x.len() - i,
    {
        proof {
            let p = x@.subrange(i as int, x.len() as int);
            let q = y@.subrange(i as int, y.len() as int);
            assert(p.subrange(1, p.len() as int) =~= x@.subrange(i + 1, x.len() as int));
            assert(q.subrange(1, q.len() as int) =~= y@.subrange(i + 1, y.len() as int));
        }
        i = i + 1;
    }
    if i == y.len() {
        false
    } else if i == x.len() {
        true
    } else {
        x[i] < y[i]
    }
}

/// The decimal digit `d`.
fn digit_char(d: u128) -> (r: char)
    requires
        d < 10,
    ensures
        r == digit(d as nat),
{
    if d == 0 {
        '0'
    } else if d == 1 {
        '1'
    } else if d == 2 {
        '2'
    } else if d == 3 {
        '3'
    } else if d == 4 {
        '4'
    } else if d == 5 {
        '5'
    } else if d == 6 {
        '6'
    } else if d == 7 {
        '7'
    } else if d == 8 {
        '8'
    } else {
        '9'
    }
}

/// `n` in decimal.
pub fn number(n: u128) -> (r: String)
    ensures
        r@ == decimal(n as nat),
    decreases n,
{
    if n < 10 {
        let mut r: String = String::new();
        r.push(digit_char(n));
        assert(r@ =~= decimal(n as nat));
        r
    } else {
        let mut r: String = number(n / 10);
        r.push(digit_char(n % 10));
        r
    }
}

/// `p` stands in `s` at position `i`.
pub open spec fn stands_at(s: Seq<char>, p: Seq<char>, i: int) -> bool {
    0 <= i && i + p.len() <= s.len() && s.subrange(i, i + p.len()) == p
}

/// Where `p` first stands in `s`, or `s.len()` where it does not.
pub open spec fn find_text(s: Seq<char>, p: Seq<char>) -> nat
    decreases s.len(),
{
    if s.len() == 0 || stands_at(s, p, 0) {
        0
    } else {
        1 + find_text(s.subrange(1, s.len() as int), p)
    }
}

/// [`find_text`] is the first position at which `p` stands.
pub proof fn lemma_find_text(s: Seq<char>, p: Seq<char>)
    requires
        p.len() > 0,
    ensures
        find_text(s, p) <= s.len(),
        find_text(s, p) < s.len() ==> stands_at(s, p, find_text(s, p) as int),
        forall|k: int| 0 <= k < find_text(s, p) ==> !#[trigger] stands_at(s, p, k),
    decreases s.len(),
{
    if s.len() > 0 && !stands_at(s, p, 0) {
        let rest = s.subrange(1, s.len() as int);
        lemma_find_text(rest, p);
        let n = find_text(rest, p) as int;
        if n < rest.len() {
            assert(rest.subrange(n, n + p.len()) =~= s.subrange(n + 1, n + 1 + p.len()));
        }
        assert forall|k: int| 0 <= k < n + 1 implies !#[trigger] stands_at(s, p, k) by {
            if k > 0 && stands_at(s, p, k) {
                assert(rest.subrange(k - 1, k - 1 + p.len()) =~= s.subrange(k, k + p.len()));
                assert(stands_at(rest, p, k - 1));
            }
        }
    }
}

/// Where the text `p` first stands in `v`, or the length of `v`.
pub fn find_str(v: &Vec<char>, p: &str) -> (r: usize)
    requires
        p@.len() > 0,
    ensures
        r == find_text(v@, p@),
        r <= v.len(),
{
    let w = chars_of(p);
    let n: usize = v.len();
    let mut i: usize = 0;
    while i < n
        invariant
            n == v.len(),
            w@ == p@,
            w.len() > 0,
            i <= n,
            forall|k: int| 0 <= k < i ==> !#[trigger] stands_at(v@, p@, k),
        decreases n - i,
    {
        if n - i >= w.len() {
            let mut j: usize = 0;
            while j < w.len() && v[i + j] == w[j]
                invariant
                    n == v.len(),
                    w@ == p@,
                    i < n,
                    n - i >= w.len(),
                    j <= w.len(),
                    forall|k: int| 0 <= k < j ==> v@[i + k] == #[trigger] w@[k],
                decreases w.len() - j,
            {
                j = j + 1;
            }
            if j == w.len() {
                assert(v@.subrange(i as int, i + w.len()) =~= p@);
                proof {
                    lemma_find_text(v@, p@);
                    assert(stands_at(v@, p@, i as int));
                    assert(find_text(v@, p@) < n ==> stands_at(v@, p@, find_text(v@, p@) as int));
                }
                return i;
            }
            assert(!stands_at(v@, p@, i as int)) by {
                if stands_at(v@, p@, i as int) {
                    assert(v@.subrange(i as int, i + p@.len())[j as int] == v@[i + j]);
                }
            }
        }
        i = i + 1;
    }
    proof {
        lemma_find_text(v@, p@);
    }
    n
}

/// White space is what Unicode calls so.
pub proof fn law_white_space(c: char)
    ensures
        is_space(c) <==> (9 <= c as u32 <= 13) || c as u32 == 0x20 || c as u32 == 0x85 || c as u32
            == 0xA0 || c as u32 == 0x1680 || (0x2000 <= c as u32 <= 0x200A) || c as u32 == 0x2028
            || c as u32 == 0x2029 || c as u32 == 0x202F || c as u32 == 0x205F || c as u32 == 0x3000,
{
}

/// Trimming takes white space away at both ends and nothing else: what is left
/// stands in the text between two runs of white space, and neither begins nor
/// ends with any.
pub proof fn law_trimmed(s: Seq<char>)
    ensures
        exists|a: int, b: int|
            0 <= a <= b <= s.len() && trimmed(s) == #[trigger] s.subrange(a, b) && (forall|k: int|
                0 <= k < a ==> is_space(#[trigger] s[k])) && (forall|k: int|
                b <= k < s.len() ==> is_space(#[trigger] s[k])),
        trimmed(s).len() > 0 ==> !is_space(trimmed(s)[0]) && !is_space(
            trimmed(s)[trimmed(s).len() - 1],
        ),
{
    let (a, b) = lemma_trimmed_range(s);
    assert(trimmed(s) == s.subrange(a, b));
    lemma_trimmed_ends(s);
}

/// Joining undoes splitting, and no piece holds the separator.
pub proof fn law_join_split(s: Seq<char>, c: char)
    ensures
        join(split(s, c), c) == s,
        split(s, c).len() > 0,
        forall|i: int| 0 <= i < split(s, c).len() ==> !(#[trigger] split(s, c)[i]).contains(c),
    decreases s.len(),
{
    lemma_find(s, c);
    let i = find(s, c) as int;
    let parts = split(s, c);
    if i < s.len() {
        let tail = s.subrange(i + 1, s.len() as int);
        let rest = split(tail, c);
        law_join_split(tail, c);
        assert(parts.subrange(1, parts.len() as int) =~= rest);
        assert(parts[0] == s.subrange(0, i));
        assert(s.subrange(0, i).push(c) + tail =~= s);
        assert forall|k: int| 0 <= k < parts.len() implies !(#[trigger] parts[k]).contains(c) by {
            if k > 0 {
                assert(parts[k] == rest[k - 1]);
            } else {
                assert forall|j: int| 0 <= j < i implies s.subrange(0, i)[j] != c by {
                    assert(s[j] != c);
                }
            }
        }
    } else {
        assert(parts[0] == s);
    }
}

/// Joined texts stand one behind the other with the separator between.
pub proof fn law_join(parts: Seq<Seq<char>>, x: Seq<char>, c: char)
    ensures
        join(Seq::<Seq<char>>::empty(), c) == Seq::<char>::empty(),
        join(seq![x], c) == x,
        parts.len() > 0 ==> join(seq![x] + parts, c) == x + seq![c] + join(parts, c),
{
    if parts.len() > 0 {
        let all = seq![x] + parts;
        assert(all.subrange(1, all.len() as int) =~= parts);
        assert(x.push(c) + join(parts, c) =~= x + seq![c] + join(parts, c));
    }
}

/// Two characters stand next to each other exactly where the text can be cut
/// around them.
pub proof fn law_has_pair(before: Seq<char>, a: char, b: char, after: Seq<char>, s: Seq<char>)
    ensures
        has_pair(before.push(a).push(b) + after, a, b),
        has_pair(s, a, b) ==> exists|x: Seq<char>, y: Seq<char>| s == #[trigger] (x.push(a).push(b) + y),
{
    let all = before.push(a).push(b) + after;
    let n = before.len() as int;
    assert(all[n] == a && all[n + 1] == b);
    if has_pair(s, a, b) {
        let i = choose|i: int| 0 <= i < s.len() - 1 && #[trigger] s[i] == a && s[i + 1] == b;
        let x = s.subrange(0, i);
        let y = s.subrange(i + 2, s.len() as int);
        assert(s =~= x.push(a).push(b) + y);
    }
}

/// Texts are ordered by the first character in which they differ, and a text is
/// before every longer one that it begins.
pub proof fn law_text_lt(p: Seq<char>, a: Seq<char>, b: Seq<char>)
    ensures
        a.len() > 0 && b.len() > 0 && a[0] != b[0] ==> (text_lt(p + a, p + b) <==> a[0] < b[0]),
        b.len() > 0 ==> text_lt(p, p + b) && !text_lt(p + b, p),
        !text_lt(p, p),
    decreases p.len(),
{
    if p.len() == 0 {
        assert(p + a =~= a && p + b =~= b);
    } else {
        let rest = p.subrange(1, p.len() as int);
        law_text_lt(rest, a, b);
        assert((p + a).subrange(1, (p + a).len() as int) =~= rest + a);
        assert((p + b).subrange(1, (p + b).len() as int) =~= rest + b);
    }
}

/// The number that decimal digits stand for.
pub open spec fn digits_value(s: Seq<char>) -> int
    decreases s.len(),
{
    if s.len() == 0 {
        0
    } else {
        digits_value(s.drop_last()) * 10 + (s.last() as u32 - 48)
    }
}

/// A number is written in decimal digits that read back as it, without zeros in
/// front.
pub proof fn law_decimal(n: nat)
    ensures
        digits_value(decimal(n)) == n,
        decimal(n).len() > 0,
        forall|i: int| 0 <= i < decimal(n).len() ==> 48 <= (#[trigger] decimal(n)[i]) as u32 <= 57,
        n > 0 ==> decimal(n)[0] != '0',
    decreases n,
{
    let s = decimal(n);
    if n >= 10 {
        let init = decimal(n / 10);
        law_decimal(n / 10);
        assert(s.drop_last() =~= init);
        assert(s[0] == init[0]);
        assert forall|i: int| 0 <= i < s.len() implies 48 <= (#[trigger] s[i]) as u32 <= 57 by {
            if i < init.len() {
                assert(s[i] == init[i]);
            }
        }
    } else {
        assert(s.drop_last() =~= Seq::empty());
        assert(digits_value(s.drop_last()) == 0);
    }
}

}
