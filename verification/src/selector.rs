//! The series selector of a range query: a bare metric name, or
//! `{__name__="x",k="v",...}` with exact `=` matchers only.
use vstd::prelude::*;
use vstd::string::*;
use crate::labels;
use crate::query::QueryError;
use crate::text;

verus! {

/// The message for a matcher that is not an exact one.
pub open spec fn exact_only() -> Seq<char> {
    "only exact = matchers are supported (no =~, !=, !~)"@
}

/// A text that cannot be a bare metric name.
pub open spec fn has_selector_char(t: Seq<char>) -> bool {
    t.contains('{') || t.contains('}') || t.contains('"') || t.contains('=')
}

/// `v` begins with `open`, ends with `close`, and the two are not one character.
pub open spec fn enclosed(v: Seq<char>, open: char, close: char) -> bool {
    v.len() >= 2 && v[0] == open && v.last() == close
}

/// What stands between the first and the last character of `v`.
pub open spec fn inside(v: Seq<char>) -> Seq<char> {
    v.subrange(1, v.len() - 1)
}

/// Reads one matcher, `key="value"` with white space round key and value: the
/// pair, or the message why it is none.
pub open spec fn matcher(part: Seq<char>) -> Result<labels::Pair, Seq<char>> {
    let eq = text::find(part, '=') as int;
    let key = text::trimmed(part.subrange(0, eq));
    let tail = part.subrange(eq + 1, part.len() as int);
    let value = text::trimmed(tail);
    if text::has_pair(part, '=', '~') || text::has_pair(part, '!', '=') {
        Err(exact_only())
    } else if !part.contains('=') {
        Err("malformed matcher "@ + text::debug_text(part) + ": expected k=\"v\""@)
    } else if key.len() == 0 || key.last() == '!' || (tail.len() > 0 && tail[0] == '!') {
        Err(exact_only())
    } else if !enclosed(value, '"', '"') {
        Err("malformed matcher "@ + text::debug_text(part) + ": value must be quoted"@)
    } else {
        Ok((key, inside(value)))
    }
}

/// The metric name and the matchers that `parts` give: the last `__name__`
/// names the metric, the others stay in order. The first part that is no
/// matcher decides the message.
pub open spec fn matchers(parts: Seq<Seq<char>>) -> Result<
    (Option<Seq<char>>, Seq<labels::Pair>),
    Seq<char>,
>
    decreases parts.len(),
{
    if parts.len() == 0 {
        Ok((None, Seq::empty()))
    } else {
        match matchers(parts.drop_last()) {
            Err(e) => Err(e),
            Ok((name, pairs)) => match matcher(parts.last()) {
                Err(e) => Err(e),
                Ok((key, value)) => if key == "__name__"@ {
                    Ok((Some(value), pairs))
                } else {
                    Ok((name, pairs.push((key, value))))
                },
            },
        }
    }
}

/// The parts between the commas of a selector's body; none in a blank body.
pub open spec fn body_parts(body: Seq<char>) -> Seq<Seq<char>> {
    if text::trimmed(body).len() == 0 {
        Seq::empty()
    } else {
        text::split(body, ',')
    }
}

/// Reads a selector: metric name and matchers, or the message why it is none.
pub open spec fn selector(s: Seq<char>) -> Result<(Seq<char>, Seq<labels::Pair>), Seq<char>> {
    let t = text::trimmed(s);
    if t.len() == 0 {
        Err("missing query parameter"@)
    } else if t[0] != '{' {
        if has_selector_char(t) {
            Err("invalid metric name "@ + text::debug_text(t))
        } else {
            Ok((t, Seq::empty()))
        }
    } else if !enclosed(t, '{', '}') {
        Err("malformed selector "@ + text::debug_text(t) + ": expected {...}"@)
    } else {
        match matchers(body_parts(inside(t))) {
            Err(e) => Err(e),
            Ok((Some(name), pairs)) if name.len() > 0 => Ok((name, pairs)),
            Ok(_) => Err("selector requires a metric name (bare name or __name__)"@),
        }
    }
}

/// The matcher that `part` is, or why it is none.
fn parse_matcher(part: &str) -> (r: Result<(String, String), QueryError>)
    ensures
        match r {
            Ok(p) => matcher(part@) == Ok::<labels::Pair, Seq<char>>((p.0@, p.1@)),
            Err(e) => matcher(part@) == Err::<labels::Pair, Seq<char>>(e@),
        },
{
    if text::contains_pair(part, '=', '~') || text::contains_pair(part, '!', '=') {
        return Err(
            QueryError::bad_data("only exact = matchers are supported (no =~, !=, !~)"),
        );
    }
    let v = text::chars_of(part);
    let eq: usize = text::find_char(&v, '=');
    proof {
        text::lemma_find(part@, '=');
    }
    if eq == v.len() {
        return Err(
            QueryError::new(
                text::cat3(
                    "malformed matcher ",
                    text::quoted(part).as_str(),
                    ": expected k=\"v\"",
                ),
            ),
        );
    }
    let left = text::text_of(&v, 0, eq);
    let key = text::trim(left.as_str());
    let key_chars = text::chars_of(key);
    let tail = text::text_of(&v, eq + 1, v.len());
    if key_chars.len() == 0 || key_chars[key_chars.len() - 1] == '!' || (eq + 1 < v.len() && v[eq
        + 1] == '!') {
        return Err(
            QueryError::bad_data("only exact = matchers are supported (no =~, !=, !~)"),
        );
    }
    let value = text::trim(tail.as_str());
    let value_chars = text::chars_of(value);
    let n: usize = value_chars.len();
    if n < 2 || value_chars[0] != '"' || value_chars[n - 1] != '"' {
        return Err(
            QueryError::new(
                text::cat3(
                    "malformed matcher ",
                    text::quoted(part).as_str(),
                    ": value must be quoted",
                ),
            ),
        );
    }
    Ok((key.to_string(), text::text_of(&value_chars, 1, n - 1)))
}

/// Parse `query`: bare `metric_name` or `{__name__="x",k="v"}` with `=`
/// matchers only. Anything else is rejected explicitly.
pub fn parse_selector(s: &str) -> (r: Result<(String, Vec<(String, String)>), QueryError>)
    ensures
        match r {
            Ok(p) => selector(s@) == Ok::<_, Seq<char>>((p.0@, p.1.deep_view())),
            Err(e) => selector(s@) == Err::<(Seq<char>, Seq<labels::Pair>), _>(e@),
        },
{
    let t = text::trim(s);
    let v = text::chars_of(t);
    let n: usize = v.len();
    if n == 0 {
        return Err(QueryError::bad_data("missing query parameter"));
    }
    if v[0] != '{' {
        if text::contains_char(t, '{') || text::contains_char(t, '}') || text::contains_char(t, '"')
            || text::contains_char(t, '=') {
            return Err(
                QueryError::new(text::cat("invalid metric name ", text::quoted(t).as_str())),
            );
        }
        let none: Vec<(String, String)> = Vec::new();
        assert(none.deep_view() =~= Seq::empty());
        return Ok((t.to_string(), none));
    }
    if n < 2 || v[n - 1] != '}' {
        return Err(
            QueryError::new(
                text::cat3("malformed selector ", text::quoted(t).as_str(), ": expected {...}"),
            ),
        );
    }
    let body = text::text_of(&v, 1, n - 1);
    let mut parts: Vec<String> = Vec::new();
    let inner = text::trim(body.as_str());
    if text::chars_of(inner).len() > 0 {
        parts = text::split_on(body.as_str(), ',');
    }
    assert(parts.deep_view() =~= body_parts(inside(t@)));
    let ghost all = parts.deep_view();
    let mut name: Option<String> = None;
    let mut pairs: Vec<(String, String)> = Vec::new();
    let mut i: usize = 0;
    assert(pairs.deep_view() =~= Seq::empty());
    while i < parts.len()
        invariant
            i <= parts.len(),
            all == parts.deep_view(),
            t@ == text::trimmed(s@),
            enclosed(t@, '{', '}'),
            all == body_parts(inside(t@)),
            matchers(all.subrange(0, i as int)) == Ok::<_, Seq<char>>(
                (name.deep_view(), pairs.deep_view()),
            ),
        decreases parts.len() - i,
    {
        let ghost next = all.subrange(0, i + 1);
        proof {
            assert(next.drop_last() =~= all.subrange(0, i as int));
            assert(next.last() == parts@[i as int]@);
        }
        match parse_matcher(parts[i].as_str()) {
            Err(e) => {
                proof {
                    lemma_first_fault(all, i as int, e@);
                }
                return Err(e);
            },
            Ok(p) => {
                if text::same(p.0.as_str(), "__name__") {
                    name = Some(p.1);
                } else {
                    let ghost before = pairs.deep_view();
                    let ghost pv = p.deep_view();
                    pairs.push(p);
                    assert(pairs.deep_view() =~= before.push(pv));
                }
            },
        }
        i = i + 1;
    }
    assert(all.subrange(0, i as int) =~= all);
    match name {
        Some(name) => {
            if name.as_str().unicode_len() > 0 {
                return Ok((name, pairs));
            }
        },
        None => {},
    }
    Err(QueryError::bad_data("selector requires a metric name (bare name or __name__)"))
}

proof fn lemma_first_fault(parts: Seq<Seq<char>>, i: int, e: Seq<char>)
    requires
        0 <= i < parts.len(),
        matchers(parts.subrange(0, i + 1)) == Err::<(Option<Seq<char>>, Seq<labels::Pair>), _>(e),
    ensures
        matchers(parts) == Err::<(Option<Seq<char>>, Seq<labels::Pair>), _>(e),
    decreases parts.len() - i,
{
    if i == parts.len() - 1 {
        assert(parts.subrange(0, i + 1) =~= parts);
    } else {
        assert(parts.subrange(0, i + 2).drop_last() =~= parts.subrange(0, i + 1));
        lemma_first_fault(parts, i + 1, e);
    }
}

/// A bare metric name selects the series of that name, whatever their labels.
pub proof fn law_bare_name(s: Seq<char>)
    requires
        text::trimmed(s).len() > 0,
        !has_selector_char(text::trimmed(s)),
    ensures
        selector(s) == Ok::<_, Seq<char>>((text::trimmed(s), Seq::<labels::Pair>::empty())),
{
    let t = text::trimmed(s);
    if t[0] == '{' {
        assert(t.contains('{'));
    }
}

/// `part` asks for something else than equality: it holds `=~` or `!=`, or it
/// is a key, `!~` and a quoted value.
pub open spec fn non_exact(part: Seq<char>) -> bool {
    ||| text::has_pair(part, '=', '~')
    ||| text::has_pair(part, '!', '=')
    ||| exists|key: Seq<char>, rest: Seq<char>| #[trigger]
        is_not_match(part, key, rest)
}

/// `part` is `key`, `!~` and a quoted value in `rest`, which holds no further
/// quote; the key holds no `=`.
pub open spec fn is_not_match(part: Seq<char>, key: Seq<char>, rest: Seq<char>) -> bool {
    &&& part == key + seq!['!', '~'] + rest
    &&& !key.contains('=')
    &&& enclosed(text::trimmed(rest), '"', '"')
    &&& !inside(text::trimmed(rest)).contains('"')
}

/// `=~`, `!=` and `!~` are rejected, never run: one such matcher anywhere in a
/// selector makes it an error.
pub proof fn law_non_exact_rejected(s: Seq<char>, i: int)
    requires
        enclosed(text::trimmed(s), '{', '}'),
        0 <= i < body_parts(inside(text::trimmed(s))).len(),
        non_exact(body_parts(inside(text::trimmed(s)))[i]),
    ensures
        selector(s) is Err,
{
    let parts = body_parts(inside(text::trimmed(s)));
    lemma_non_exact(parts[i]);
    lemma_matchers_fault(parts, i);
}

proof fn lemma_matchers_fault(parts: Seq<Seq<char>>, i: int)
    requires
        0 <= i < parts.len(),
        matcher(parts[i]) is Err,
    ensures
        matchers(parts) is Err,
    decreases parts.len(),
{
    if i < parts.len() - 1 {
        lemma_matchers_fault(parts.drop_last(), i);
    }
}

proof fn lemma_non_exact(part: Seq<char>)
    requires
        non_exact(part),
    ensures
        matcher(part) is Err,
{
    if !text::has_pair(part, '=', '~') && !text::has_pair(part, '!', '=') && matcher(part) is Ok {
        let (key, rest) = choose|key: Seq<char>, rest: Seq<char>| #[trigger]
            is_not_match(part, key, rest);
        let eq = text::find(part, '=') as int;
        text::lemma_find(part, '=');
        let n = key.len() as int + 2;
        assert(rest =~= part.subrange(n, part.len() as int));
        if eq < key.len() {
            assert(key[eq] == '=');
        }
        assert(part[n - 2] == '!');
        assert(part[n - 1] == '~');
        assert(eq >= n);
        let (a, b) = text::lemma_trimmed_range(rest);
        let quoted = text::trimmed(rest);
        let tail = part.subrange(eq + 1, part.len() as int);
        let (c, d) = text::lemma_trimmed_range(tail);
        let value = text::trimmed(tail);
        assert(value[0] == tail[c] && value.last() == tail[d - 1]);
        let x = eq - n;
        let y = x + 1 + c;
        let z = x + d;
        assert(rest[x] == part[eq]);
        assert(rest[y] == tail[c]);
        assert(rest[z] == tail[d - 1]);
        assert(a <= x < b && a <= y < b && a <= z < b);
        assert(quoted[0] == rest[a]);
        assert forall|k: int| a < k < b - 1 implies rest[k] != '"' by {
            assert(inside(quoted)[k - a - 1] == rest[k]);
        }
    }
}

/// A matcher as it is written: the key, `=` and the value in quotes.
pub open spec fn written(key: Seq<char>, value: Seq<char>) -> Seq<char> {
    key + seq!['=', '"'] + value + seq!['"']
}

/// A selector as it is written, from the metric name and the matchers.
pub open spec fn written_selector(name: Seq<char>, pairs: Seq<labels::Pair>) -> Seq<char> {
    seq!['{'] + text::join(written_parts(name, pairs), ',') + seq!['}']
}

/// The parts of a written selector: the metric name first, then the matchers.
pub open spec fn written_parts(name: Seq<char>, pairs: Seq<labels::Pair>) -> Seq<Seq<char>> {
    seq![written("__name__"@, name)] + pairs.map_values(|p: labels::Pair| written(p.0, p.1))
}

/// A key that a matcher can carry.
pub open spec fn plain_key(key: Seq<char>) -> bool {
    &&& key.len() > 0
    &&& text::trimmed(key) == key
    &&& !key.contains(',')
    &&& !key.contains('=')
    &&& key.last() != '!'
}

/// A value that a matcher can carry.
pub open spec fn plain_value(value: Seq<char>) -> bool {
    &&& !value.contains(',')
    &&& !text::has_pair(value, '=', '~')
    &&& !text::has_pair(value, '!', '=')
}

/// What is written as a selector is read back: the same metric name and the
/// same matchers, in order.
pub proof fn law_selector_round_trip(name: Seq<char>, pairs: Seq<labels::Pair>)
    requires
        name.len() > 0,
        plain_value(name),
        forall|i: int|
            0 <= i < pairs.len() ==> plain_key((#[trigger] pairs[i]).0) && plain_value(pairs[i].1)
                && pairs[i].0 != "__name__"@,
    ensures
        selector(written_selector(name, pairs)) == Ok::<_, Seq<char>>((name, pairs)),
{
    let parts = written_parts(name, pairs);
    let body = text::join(parts, ',');
    let s = written_selector(name, pairs);
    lemma_name_key();
    lemma_written("__name__"@, name);
    assert forall|i: int| 0 <= i < parts.len() implies !(#[trigger] parts[i]).contains(',') by {
        if i > 0 {
            assert(parts[i] == written(pairs[i - 1].0, pairs[i - 1].1));
            lemma_written(pairs[i - 1].0, pairs[i - 1].1);
        }
    }
    text::law_split_join(parts, ',');
    text::lemma_trimmed_same(s);
    assert(inside(s) =~= body);
    let k = "__name__"@.len() as int;
    assert(parts[0][k] == '=');
    assert(body[k] == '=');
    let (a, b) = text::lemma_trimmed_range(body);
    assert(a <= k < b);
    lemma_written_matchers(name, pairs);
}

proof fn lemma_name_key()
    ensures
        plain_key("__name__"@),
{
    reveal_strlit("__name__");
    text::lemma_trimmed_same("__name__"@);
}

proof fn lemma_written(key: Seq<char>, value: Seq<char>)
    requires
        plain_key(key),
        plain_value(value),
    ensures
        matcher(written(key, value)) == Ok::<_, Seq<char>>((key, value)),
        !written(key, value).contains(','),
{
    let part = written(key, value);
    let n = key.len() as int;
    assert(part[n] == '=');
    assert(part[n + 1] == '"');
    assert(part.last() == '"');
    assert forall|k: int| 0 <= k < part.len() implies #[trigger] part[k] != ',' && (k < n ==> part[k]
        != '=') by {
        if k < n {
            assert(part[k] == key[k]);
        } else if k >= n + 2 && k < part.len() - 1 {
            assert(part[k] == value[k - n - 2]);
        }
    }
    text::lemma_find_at(part, '=', n);
    let tail = part.subrange(n + 1, part.len() as int);
    assert(part.subrange(0, n) =~= key);
    text::lemma_trimmed_same(tail);
    assert(inside(tail) =~= value);
    assert(part.contains('='));
    assert forall|k: int| 0 <= k < part.len() - 1 implies !(#[trigger] part[k] == '=' && part[k + 1]
        == '~') && !(part[k] == '!' && part[k + 1] == '=') by {
        if k >= n + 2 && k < part.len() - 2 {
            assert(part[k] == value[k - n - 2]);
            assert(part[k + 1] == value[k - n - 1]);
        } else if k < n {
            assert(part[k] == key[k]);
            assert(k + 1 < n ==> part[k + 1] == key[k + 1]);
        }
    }
}

proof fn lemma_written_matchers(name: Seq<char>, pairs: Seq<labels::Pair>)
    requires
        plain_value(name),
        forall|i: int|
            0 <= i < pairs.len() ==> plain_key((#[trigger] pairs[i]).0) && plain_value(pairs[i].1)
                && pairs[i].0 != "__name__"@,
    ensures
        matchers(written_parts(name, pairs)) == Ok::<_, Seq<char>>((Some(name), pairs)),
    decreases pairs.len(),
{
    let parts = written_parts(name, pairs);
    lemma_name_key();
    lemma_written("__name__"@, name);
    if pairs.len() == 0 {
        assert(parts.drop_last() =~= Seq::empty());
        assert(parts.last() == written("__name__"@, name));
        assert(pairs =~= Seq::empty());
        assert(matchers(parts.drop_last()) == Ok::<_, Seq<char>>(
            (None::<Seq<char>>, Seq::<labels::Pair>::empty()),
        ));
    } else {
        let init = pairs.drop_last();
        let last = pairs.last();
        lemma_written_matchers(name, init);
        lemma_written(last.0, last.1);
        assert(parts.drop_last() =~= written_parts(name, init));
        assert(parts.last() == written(last.0, last.1));
        assert(init.push(last) =~= pairs);
        assert(pairs[pairs.len() - 1] == last);
    }
}

/// White space at the four places of a matcher where it makes no difference.
pub struct Spaces {
    pub before_key: Seq<char>,
    pub after_key: Seq<char>,
    pub before_value: Seq<char>,
    pub after_value: Seq<char>,
}

/// There is white space at the four places, and nothing else.
pub open spec fn blank_spaces(w: Spaces) -> bool {
    &&& text::blank(w.before_key)
    &&& text::blank(w.after_key)
    &&& text::blank(w.before_value)
    &&& text::blank(w.after_value)
}

/// A matcher as it is written, with white space around key and value.
pub open spec fn spaced(p: labels::Pair, w: Spaces) -> Seq<char> {
    (w.before_key + p.0 + w.after_key) + seq!['='] + (w.before_value + (seq!['"'] + p.1 + seq!['"'])
        + w.after_value)
}

/// The pairs of a written selector: the metric name first, then the matchers.
pub open spec fn all_pairs(name: Seq<char>, pairs: Seq<labels::Pair>) -> Seq<labels::Pair> {
    seq![("__name__"@, name)] + pairs
}

/// The parts of a written selector with white space around keys and values.
pub open spec fn spaced_parts(all: Seq<labels::Pair>, spaces: Seq<Spaces>) -> Seq<Seq<char>> {
    Seq::new(all.len(), |i: int| spaced(all[i], spaces[i]))
}

/// A selector as it is written, with white space around its braces, its commas
/// and its equal signs.
pub open spec fn spaced_selector(
    name: Seq<char>,
    pairs: Seq<labels::Pair>,
    spaces: Seq<Spaces>,
    before: Seq<char>,
    after: Seq<char>,
) -> Seq<char> {
    before + (seq!['{'] + text::join(spaced_parts(all_pairs(name, pairs), spaces), ',') + seq!['}'])
        + after
}

proof fn lemma_blank_no(s: Seq<char>, k: int)
    requires
        text::blank(s),
        0 <= k < s.len(),
    ensures
        s[k] != '=' && s[k] != '!' && s[k] != '~' && s[k] != ',' && s[k] != '"',
{
    assert(text::is_space(s[k]));
}

proof fn lemma_spaced(p: labels::Pair, w: Spaces)
    requires
        plain_key(p.0),
        plain_value(p.1),
        blank_spaces(w),
    ensures
        matcher(spaced(p, w)) == Ok::<_, Seq<char>>(p),
        !spaced(p, w).contains(','),
        spaced(p, w).contains('='),
{
    let part = spaced(p, w);
    let left = w.before_key + p.0 + w.after_key;
    let quoted = seq!['"'] + p.1 + seq!['"'];
    let right = w.before_value + quoted + w.after_value;
    let n = left.len() as int;
    let a = w.before_key.len() as int;
    let b = a + p.0.len();
    let c = n + 1 + w.before_value.len();
    let d = c + 1 + p.1.len();
    assert(part == left + seq!['='] + right);
    assert(part[n] == '=');
    assert forall|k: int| 0 <= k < n implies #[trigger] part[k] != '=' && part[k] != ',' by {
        assert(part[k] == left[k]);
        if k < a {
            assert(left[k] == w.before_key[k]);
            lemma_blank_no(w.before_key, k);
        } else if k < b {
            assert(left[k] == p.0[k - a]);
        } else {
            assert(left[k] == w.after_key[k - b]);
            lemma_blank_no(w.after_key, k - b);
        }
    }
    assert forall|k: int| n < k < part.len() implies #[trigger] part[k] == right[k - n - 1] by {}
    assert forall|k: int| n < k < c implies #[trigger] part[k] != ',' && part[k] != '~' && part[k]
        != '=' && part[k] != '!' by {
        assert(part[k] == w.before_value[k - n - 1]);
        lemma_blank_no(w.before_value, k - n - 1);
    }
    assert(part[c] == '"');
    assert(part[d] == '"');
    assert forall|k: int| c < k < d implies #[trigger] part[k] == p.1[k - c - 1] by {}
    assert forall|k: int| d < k < part.len() implies #[trigger] part[k] != ',' && part[k] != '~'
        && part[k] != '=' && part[k] != '!' by {
        assert(part[k] == w.after_value[k - d - 1]);
        lemma_blank_no(w.after_value, k - d - 1);
    }
    assert(!part.contains(',')) by {
        assert forall|k: int| 0 <= k < part.len() implies part[k] != ',' by {
            if c < k < d {
                assert(part[k] == p.1[k - c - 1]);
            }
        }
    }
    // The character in front of the equal sign is no `!`.
    assert(n > 0 && part[n - 1] != '!') by {
        assert(part[n - 1] == left[n - 1]);
        if w.after_key.len() > 0 {
            assert(left[n - 1] == w.after_key[n - 1 - b]);
            lemma_blank_no(w.after_key, n - 1 - b);
        } else {
            assert(left[n - 1] == p.0.last());
        }
    }
    assert(part[n + 1] != '~' && part[n + 1] != '!') by {
        if w.before_value.len() > 0 {
            assert(n + 1 < c);
        } else {
            assert(c == n + 1);
        }
    }
    assert forall|k: int| 0 <= k < part.len() - 1 implies !(#[trigger] part[k] == '=' && part[k + 1]
        == '~') && !(part[k] == '!' && part[k + 1] == '=') by {
        if c < k < d {
            assert(part[k] == p.1[k - c - 1]);
            if k + 1 < d {
                assert(part[k + 1] == p.1[k + 1 - c - 1]);
            }
        } else if k < n {
            assert(k + 1 < n ==> part[k + 1] != '=');
        }
    }
    text::lemma_find_at(part, '=', n);
    assert(part.subrange(0, n) =~= left);
    let tail = part.subrange(n + 1, part.len() as int);
    assert(tail =~= right);
    text::lemma_trimmed_ends(p.0);
    text::lemma_trimmed_padded(w.before_key, p.0, w.after_key);
    assert(quoted[0] == '"' && quoted.last() == '"');
    text::lemma_trimmed_padded(w.before_value, quoted, w.after_value);
    assert(tail[0] == part[n + 1]);
    assert(inside(quoted) =~= p.1);
    assert(part.contains('='));
}

proof fn lemma_spaced_matchers(name: Seq<char>, pairs: Seq<labels::Pair>, spaces: Seq<Spaces>)
    requires
        plain_value(name),
        forall|i: int|
            0 <= i < pairs.len() ==> plain_key((#[trigger] pairs[i]).0) && plain_value(pairs[i].1)
                && pairs[i].0 != "__name__"@,
        spaces.len() == pairs.len() + 1,
        forall|i: int| 0 <= i < spaces.len() ==> blank_spaces(#[trigger] spaces[i]),
    ensures
        matchers(spaced_parts(all_pairs(name, pairs), spaces)) == Ok::<_, Seq<char>>(
            (Some(name), pairs),
        ),
    decreases pairs.len(),
{
    let all = all_pairs(name, pairs);
    let parts = spaced_parts(all, spaces);
    lemma_name_key();
    if pairs.len() == 0 {
        lemma_spaced(all[0], spaces[0]);
        assert(parts.drop_last() =~= Seq::empty());
        assert(pairs =~= Seq::empty());
        assert(matchers(parts.drop_last()) == Ok::<_, Seq<char>>(
            (None::<Seq<char>>, Seq::<labels::Pair>::empty()),
        ));
    } else {
        let init = pairs.drop_last();
        let last = pairs.last();
        let rest = spaces.drop_last();
        assert forall|i: int| 0 <= i < rest.len() implies blank_spaces(#[trigger] rest[i]) by {
            assert(rest[i] == spaces[i]);
        }
        lemma_spaced_matchers(name, init, rest);
        lemma_spaced(last, spaces[pairs.len() as int]);
        assert(parts.drop_last() =~= spaced_parts(all_pairs(name, init), rest));
        assert(parts.last() == spaced(last, spaces[pairs.len() as int]));
        assert(init.push(last) =~= pairs);
        assert(pairs[pairs.len() - 1] == last);
    }
}

/// White space around the braces, commas and equal signs of a written selector
/// makes no difference: it is read as without.
pub proof fn law_spacing_irrelevant(
    name: Seq<char>,
    pairs: Seq<labels::Pair>,
    spaces: Seq<Spaces>,
    before: Seq<char>,
    after: Seq<char>,
)
    requires
        name.len() > 0,
        plain_value(name),
        forall|i: int|
            0 <= i < pairs.len() ==> plain_key((#[trigger] pairs[i]).0) && plain_value(pairs[i].1)
                && pairs[i].0 != "__name__"@,
        spaces.len() == pairs.len() + 1,
        forall|i: int| 0 <= i < spaces.len() ==> blank_spaces(#[trigger] spaces[i]),
        text::blank(before),
        text::blank(after),
    ensures
        selector(spaced_selector(name, pairs, spaces, before, after)) == selector(
            written_selector(name, pairs),
        ),
        selector(spaced_selector(name, pairs, spaces, before, after)) == Ok::<_, Seq<char>>(
            (name, pairs),
        ),
{
    let all = all_pairs(name, pairs);
    let parts = spaced_parts(all, spaces);
    let body = text::join(parts, ',');
    let inner = seq!['{'] + body + seq!['}'];
    law_selector_round_trip(name, pairs);
    lemma_name_key();
    assert forall|i: int| 0 <= i < parts.len() implies !(#[trigger] parts[i]).contains(',')
        && parts[i].contains('=') by {
        if i > 0 {
            assert(all[i] == pairs[i - 1]);
        }
        lemma_spaced(all[i], spaces[i]);
    }
    text::law_split_join(parts, ',');
    assert(inner[0] == '{' && inner.last() == '}');
    text::lemma_trimmed_padded(before, inner, after);
    assert(inside(inner) =~= body);
    assert(parts[0].contains('='));
    let k = choose|k: int| 0 <= k < parts[0].len() && parts[0][k] == '=';
    assert(body[k] == '=');
    let (a, b) = text::lemma_trimmed_range(body);
    assert(a <= k < b);
    lemma_spaced_matchers(name, pairs, spaces);
}

/// What is accepted as a matcher is one: a key, `=` and a value in quotes, with
/// white space around key and value and nothing else. The key is not empty and
/// has no `=` in it and no `!` at its end.
pub proof fn law_accepted_matcher(part: Seq<char>, key: Seq<char>, value: Seq<char>)
    requires
        matcher(part) == Ok::<_, Seq<char>>((key, value)),
    ensures
        exists|w: Spaces|
            text::blank(w.before_key) && text::blank(w.after_key) && text::blank(w.before_value)
                && text::blank(w.after_value) && part == #[trigger] spaced((key, value), w),
        key.len() > 0,
        key[key.len() - 1] != '!',
        !key.contains('='),
        !text::has_pair(part, '=', '~'),
        !text::has_pair(part, '!', '='),
{
    text::lemma_find(part, '=');
    let eq = text::find(part, '=') as int;
    let left = part.subrange(0, eq);
    let right = part.subrange(eq + 1, part.len() as int);
    let (a, b) = text::lemma_trimmed_range(left);
    let (c, d) = text::lemma_trimmed_range(right);
    let w = Spaces {
        before_key: left.subrange(0, a),
        after_key: left.subrange(b, left.len() as int),
        before_value: right.subrange(0, c),
        after_value: right.subrange(d, right.len() as int),
    };
    let quoted = text::trimmed(right);
    assert(quoted =~= seq!['"'] + inside(quoted) + seq!['"']);
    assert(left =~= w.before_key + key + w.after_key);
    assert(right =~= w.before_value + quoted + w.after_value);
    assert(part =~= left + seq!['='] + right);
    assert(part == spaced((key, value), w));
    assert forall|k: int| 0 <= k < key.len() implies key[k] != '=' by {
        assert(key[k] == left[a + k]);
        assert(left[a + k] == part[a + k]);
    }
}

/// The parts of a selector are read one after the other: the last `__name__`
/// names the metric, every other key stays a matcher behind those before it, and
/// the first part that is no matcher decides.
pub proof fn law_one_more_part(parts: Seq<Seq<char>>, part: Seq<char>)
    ensures
        matchers(Seq::<Seq<char>>::empty()) == Ok::<_, Seq<char>>(
            (None::<Seq<char>>, Seq::<labels::Pair>::empty()),
        ),
        matchers(parts) is Err ==> matchers(parts.push(part)) == matchers(parts),
        matchers(parts) is Ok && matcher(part) is Err ==> matchers(parts.push(part)) == Err::<
            (Option<Seq<char>>, Seq<labels::Pair>),
            Seq<char>,
        >(matcher(part)->Err_0),
        matchers(parts) is Ok && matcher(part) is Ok && matcher(part)->Ok_0.0 == "__name__"@
            ==> matchers(parts.push(part)) == Ok::<_, Seq<char>>(
            (Some(matcher(part)->Ok_0.1), matchers(parts)->Ok_0.1),
        ),
        matchers(parts) is Ok && matcher(part) is Ok && matcher(part)->Ok_0.0 != "__name__"@
            ==> matchers(parts.push(part)) == Ok::<_, Seq<char>>(
            (matchers(parts)->Ok_0.0, matchers(parts)->Ok_0.1.push(matcher(part)->Ok_0)),
        ),
{
    assert(parts.push(part).drop_last() =~= parts);
}

/// A selector in braces is what its parts between the commas say: the metric
/// name, which must be there, and the matchers.
pub proof fn law_braces(before: Seq<char>, parts: Seq<Seq<char>>, after: Seq<char>)
    requires
        text::blank(before),
        text::blank(after),
        parts.len() > 0,
        forall|i: int| 0 <= i < parts.len() ==> !(#[trigger] parts[i]).contains(','),
        matchers(parts) is Ok,
        matchers(parts)->Ok_0.0 is Some,
    ensures
        (matchers(parts)->Ok_0.0->0).len() > 0 ==> selector(
            before + (seq!['{'] + text::join(parts, ',') + seq!['}']) + after,
        ) == Ok::<_, Seq<char>>((matchers(parts)->Ok_0.0->0, matchers(parts)->Ok_0.1)),
        (matchers(parts)->Ok_0.0->0).len() == 0 ==> selector(
            before + (seq!['{'] + text::join(parts, ',') + seq!['}']) + after,
        ) is Err,
{
    let body = text::join(parts, ',');
    let inner = seq!['{'] + body + seq!['}'];
    text::law_split_join(parts, ',');
    assert(inner[0] == '{' && inner.last() == '}');
    text::lemma_trimmed_padded(before, inner, after);
    assert(inside(inner) =~= body);
    lemma_matcher_has_equal(parts, parts.len() as int);
    assert(parts[0].contains('='));
    let k = choose|k: int| 0 <= k < parts[0].len() && parts[0][k] == '=';
    assert(body[k] == '=');
    let (a, b) = text::lemma_trimmed_range(body);
    assert(a <= k < b);
}

proof fn lemma_matcher_has_equal(parts: Seq<Seq<char>>, n: int)
    requires
        parts.len() == n,
        matchers(parts) is Ok,
    ensures
        n > 0 ==> parts[0].contains('='),
    decreases n,
{
    if n > 1 {
        lemma_matcher_has_equal(parts.drop_last(), n - 1);
        assert(parts.drop_last()[0] == parts[0]);
    } else if n == 1 {
        assert(parts.last() == parts[0]);
    }
}

/// What is not accepted: nothing at all, a bare name with a brace, a quote or an
/// equal sign in it, and a brace that is not closed at the end.
pub proof fn law_refused_selectors(s: Seq<char>)
    ensures
        text::trimmed(s).len() == 0 ==> selector(s) is Err,
        text::trimmed(s).len() > 0 && text::trimmed(s)[0] != '{' && (text::trimmed(s).contains('{')
            || text::trimmed(s).contains('}') || text::trimmed(s).contains('"') || text::trimmed(
            s,
        ).contains('=')) ==> selector(s) is Err,
        text::trimmed(s).len() > 0 && text::trimmed(s)[0] == '{' && text::trimmed(s)[text::trimmed(
            s,
        ).len() - 1] != '}' ==> selector(s) is Err,
{
}

/// A text without braces, quotes and equal signs, and not blank, is taken as it
/// stands for a metric name, without matchers.
pub proof fn law_plain_name(s: Seq<char>)
    requires
        text::trimmed(s).len() > 0,
        !s.contains('{'),
        !s.contains('}'),
        !s.contains('"'),
        !s.contains('='),
    ensures
        selector(s) == Ok::<_, Seq<char>>((text::trimmed(s), Seq::<labels::Pair>::empty())),
{
    let t = text::trimmed(s);
    let (a, b) = text::lemma_trimmed_range(s);
    assert forall|k: int| 0 <= k < t.len() implies t[k] != '{' && t[k] != '}' && t[k] != '"' && t[k]
        != '=' by {
        assert(t[k] == s[a + k]);
    }
}

/// A part that is no matcher is told why: another operator than `=` first, then a
/// missing `=`, then a key that is empty or leans on a `!`, then a value that is
/// not in quotes.
pub proof fn law_matcher_refused(part: Seq<char>)
    ensures
        ({
            let only = Err::<labels::Pair, Seq<char>>(
                "only exact = matchers are supported (no =~, !=, !~)"@,
            );
            let eq = text::find(part, '=') as int;
            let key = text::trimmed(part.subrange(0, eq));
            let tail = part.subrange(eq + 1, part.len() as int);
            let value = text::trimmed(tail);
            if text::has_pair(part, '=', '~') || text::has_pair(part, '!', '=') {
                matcher(part) == only
            } else if !part.contains('=') {
                matcher(part) == Err::<labels::Pair, _>(
                    "malformed matcher "@ + text::debug_text(part) + ": expected k=\"v\""@,
                )
            } else if key.len() == 0 || key[key.len() - 1] == '!' || (tail.len() > 0 && tail[0]
                == '!') {
                matcher(part) == only
            } else if value.len() < 2 || value[0] != '"' || value[value.len() - 1] != '"' {
                matcher(part) == Err::<labels::Pair, _>(
                    "malformed matcher "@ + text::debug_text(part) + ": value must be quoted"@,
                )
            } else {
                matcher(part) is Ok
            }
        }),
{
}

/// A selector that is refused is told why.
pub proof fn law_selector_refused(s: Seq<char>)
    ensures
        ({
            let t = text::trimmed(s);
            let none = Err::<(Seq<char>, Seq<labels::Pair>), Seq<char>>(
                "selector requires a metric name (bare name or __name__)"@,
            );
            if t.len() == 0 {
                selector(s) == Err::<(Seq<char>, Seq<labels::Pair>), _>("missing query parameter"@)
            } else if t[0] != '{' {
                selector(s) is Err ==> selector(s) == Err::<(Seq<char>, Seq<labels::Pair>), _>(
                    "invalid metric name "@ + text::debug_text(t),
                )
            } else if t.len() < 2 || t[t.len() - 1] != '}' {
                selector(s) == Err::<(Seq<char>, Seq<labels::Pair>), _>(
                    "malformed selector "@ + text::debug_text(t) + ": expected {...}"@,
                )
            } else {
                let body = t.subrange(1, t.len() - 1);
                if text::trimmed(body).len() == 0 {
                    selector(s) == none
                } else {
                    match matchers(text::split(body, ',')) {
                        Err(e) => selector(s) == Err::<(Seq<char>, Seq<labels::Pair>), _>(e),
                        Ok((None, _)) => selector(s) == none,
                        Ok((Some(name), pairs)) => if name.len() == 0 {
                            selector(s) == none
                        } else {
                            selector(s) == Ok::<_, Seq<char>>((name, pairs))
                        },
                    }
                }
            }
        }),
{
    law_one_more_part(Seq::empty(), Seq::empty());
}

}
