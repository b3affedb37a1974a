//! Target URLs: checking them, and the name that a URL's host suggests.
use vstd::prelude::*;
use vstd::string::*;
use crate::config;
use crate::targets::TargetError;
use crate::text;

verus! {

/// Some character of `s` is white space.
pub open spec fn has_space(s: Seq<char>) -> bool {
    exists|i: int| 0 <= i < s.len() && text::is_space(#[trigger] s[i])
}

/// What is wrong with a target URL.
pub open spec fn url_fault(url: Seq<char>) -> Option<Seq<char>> {
    let t = text::trimmed(url);
    if t.len() == 0 {
        Some("url must not be empty"@)
    } else if !config::http_url(t) {
        Some("url must start with http(s)://: "@ + t)
    } else if has_space(t) {
        Some("url has whitespace: "@ + t)
    } else {
        None
    }
}

/// Whether some character of `s` is white space.
fn contains_space(s: &str) -> (r: bool)
    ensures
        r == has_space(s@),
{
    let v = text::chars_of(s);
    let mut i: usize = 0;
    while i < v.len()
        invariant
            i <= v.len(),
            v@ == s@,
            forall|k: int| 0 <= k < i ==> !text::is_space(#[trigger] v@[k]),
        decreases v.len() - i,
    {
        if text::is_whitespace(v[i]) {
            assert(text::is_space(s@[i as int]));
            return true;
        }
        i = i + 1;
    }
    false
}

/// Validate and normalize a target URL (trimmed, http/https only).
pub fn validate_url(url: &str) -> (r: Result<String, TargetError>)
    ensures
        match r {
            Ok(u) => url_fault(url@) is None && u@ == text::trimmed(url@),
            Err(e) => e is Invalid && url_fault(url@) == Some(e->Invalid_0@),
        },
{
    let t = text::trim(url);
    if t.unicode_len() == 0 {
        return Err(TargetError::Invalid("url must not be empty".to_string()));
    }
    if !config::is_http_url(t) {
        return Err(TargetError::Invalid(text::cat("url must start with http(s)://: ", t)));
    }
    if contains_space(t) {
        return Err(TargetError::Invalid(text::cat("url has whitespace: ", t)));
    }
    Ok(t.to_string())
}

/// What stands between the first `://` and the next; all of `url` where there
/// is none.
pub open spec fn after_scheme(url: Seq<char>) -> Seq<char> {
    let i = text::find_text(url, "://"@) as int;
    if i < url.len() {
        let tail = url.subrange(i + 3, url.len() as int);
        tail.subrange(0, text::find_text(tail, "://"@) as int)
    } else {
        url
    }
}

/// `c` ends the authority part of a URL.
pub open spec fn ends_authority(c: char) -> bool {
    c == '/' || c == '?' || c == '#'
}

/// `s` up to the first character that ends the authority.
pub open spec fn authority(s: Seq<char>) -> Seq<char>
    decreases s.len(),
{
    if s.len() == 0 || ends_authority(s[0]) {
        Seq::empty()
    } else {
        seq![s[0]] + authority(s.subrange(1, s.len() as int))
    }
}

/// What follows the last `@` of `s`; all of it where there is none.
pub open spec fn after_at(s: Seq<char>) -> Seq<char>
    decreases s.len(),
{
    if s.len() == 0 || s.last() == '@' {
        Seq::empty()
    } else {
        after_at(s.drop_last()).push(s.last())
    }
}

/// The host of a URL: no scheme, path, credentials or port.
pub open spec fn host(url: Seq<char>) -> Seq<char> {
    let h = after_at(authority(after_scheme(url)));
    h.subrange(0, text::find(h, ':') as int)
}

/// `c` as it stands in a slug.
pub open spec fn slug_char(c: char) -> char {
    if ('a' <= c <= 'z') || ('A' <= c <= 'Z') || ('0' <= c <= '9') || c == '-' || c == '.' {
        c
    } else {
        '-'
    }
}

/// The slug of a URL: its host with every other character than ASCII letters,
/// digits, `-` and `.` as `-`.
pub open spec fn slug(url: Seq<char>) -> Seq<char> {
    if host(url).len() == 0 {
        "target"@
    } else {
        host(url).map_values(|c: char| slug_char(c))
    }
}

proof fn lemma_authority_at(s: Seq<char>, n: int)
    requires
        0 <= n <= s.len(),
        forall|k: int| 0 <= k < n ==> !ends_authority(#[trigger] s[k]),
        n < s.len() ==> ends_authority(s[n]),
    ensures
        authority(s) == s.subrange(0, n),
    decreases s.len(),
{
    if n > 0 {
        let rest = s.subrange(1, s.len() as int);
        assert forall|k: int| 0 <= k < n - 1 implies !ends_authority(#[trigger] rest[k]) by {
            assert(rest[k] == s[k + 1]);
        }
        assert(!ends_authority(s[0]));
        lemma_authority_at(rest, n - 1);
        assert(seq![s[0]] + rest.subrange(0, n - 1) =~= s.subrange(0, n));
    } else {
        assert(s.subrange(0, 0) =~= Seq::empty());
    }
}

proof fn lemma_after_at(s: Seq<char>, n: int)
    requires
        0 <= n <= s.len(),
        forall|k: int| n <= k < s.len() ==> #[trigger] s[k] != '@',
        n > 0 ==> s[n - 1] == '@',
    ensures
        after_at(s) == s.subrange(n, s.len() as int),
    decreases s.len(),
{
    if n < s.len() {
        let init = s.drop_last();
        lemma_after_at(init, n);
        assert(s[s.len() - 1] != '@');
        assert(init.subrange(n, init.len() as int).push(s.last()) =~= s.subrange(
            n,
            s.len() as int,
        ));
    } else {
        assert(s.subrange(n, s.len() as int) =~= Seq::empty());
    }
}

/// The host in the authority that `v` begins with: after the last `@`, before
/// the first `:`.
fn host_of(v: &Vec<char>) -> (r: Vec<char>)
    ensures
        r@ == ({
            let h = after_at(authority(v@));
            h.subrange(0, text::find(h, ':') as int)
        }),
{
    let mut end: usize = 0;
    while end < v.len() && v[end] != '/' && v[end] != '?' && v[end] != '#'
        invariant
            end <= v.len(),
            forall|k: int| 0 <= k < end ==> !ends_authority(#[trigger] v@[k]),
        decreases v.len() - end,
    {
        end = end + 1;
    }
    let ghost auth = v@.subrange(0, end as int);
    proof {
        lemma_authority_at(v@, end as int);
    }
    let mut start: usize = end;
    while start > 0 && v[start - 1] != '@'
        invariant
            start <= end <= v.len(),
            auth == v@.subrange(0, end as int),
            forall|k: int| start <= k < end ==> #[trigger] auth[k] != '@',
        decreases start,
    {
        start = start - 1;
    }
    proof {
        lemma_after_at(auth, start as int);
    }
    let ghost h = after_at(auth);
    let mut stop: usize = start;
    while stop < end && v[stop] != ':'
        invariant
            start <= stop <= end <= v.len(),
            auth == v@.subrange(0, end as int),
            h == auth.subrange(start as int, end as int),
            forall|k: int| 0 <= k < stop - start ==> #[trigger] h[k] != ':',
        decreases end - stop,
    {
        assert(h[stop - start] == v@[stop as int]);
        stop = stop + 1;
    }
    proof {
        if stop < end {
            assert(h[stop - start] == v@[stop as int]);
        }
        text::lemma_find_at(h, ':', stop - start);
    }
    let r = text::chars_of(text::text_of(v, start, stop).as_str());
    assert(r@ =~= h.subrange(0, stop - start));
    r
}

/// Host-derived slug used when no name is supplied.
pub fn slug_from_url(url: &str) -> (r: String)
    ensures
        r@ == slug(url@),
{
    proof {
        reveal_strlit("://");
    }
    let v = text::chars_of(url);
    let i: usize = text::find_str(&v, "://");
    let rest: Vec<char> = if i < v.len() {
        proof {
            text::lemma_find_text(v@, "://"@);
        }
        let tail = text::chars_of(text::text_of(&v, i + 3, v.len()).as_str());
        let j: usize = text::find_str(&tail, "://");
        text::chars_of(text::text_of(&tail, 0, j).as_str())
    } else {
        v
    };
    assert(rest@ == after_scheme(url@));
    let name = host_of(&rest);
    if name.len() == 0 {
        return "target".to_string();
    }
    let mut r: String = String::new();
    let mut k: usize = 0;
    while k < name.len()
        invariant
            k <= name.len(),
            r@ == name@.subrange(0, k as int).map_values(|c: char| slug_char(c)),
        decreases name.len() - k,
    {
        let c = name[k];
        let d: char = if ('a' <= c && c <= 'z') || ('A' <= c && c <= 'Z') || ('0' <= c && c <= '9')
            || c == '-' || c == '.' {
            c
        } else {
            '-'
        };
        r.push(d);
        k = k + 1;
        assert(r@ =~= name@.subrange(0, k as int).map_values(|c: char| slug_char(c)));
    }
    assert(name@.subrange(0, k as int) =~= name@);
    r
}

/// A URL is accepted exactly where, trimmed, it is not empty, begins with
/// `http://` or `https://`, and holds no white space.
pub proof fn law_url_accepted(url: Seq<char>)
    ensures
        url_fault(url) is None <==> text::trimmed(url).len() > 0 && ("http://"@.is_prefix_of(
            text::trimmed(url),
        ) || "https://"@.is_prefix_of(text::trimmed(url))) && forall|i: int|
            0 <= i < text::trimmed(url).len() ==> !text::is_space(#[trigger] text::trimmed(url)[i]),
{
    let t = text::trimmed(url);
    if has_space(t) {
        let i = choose|i: int| 0 <= i < t.len() && text::is_space(#[trigger] t[i]);
        assert(text::is_space(text::trimmed(url)[i]));
    }
}

proof fn lemma_after_scheme(scheme: Seq<char>, rest: Seq<char>)
    requires
        !scheme.contains(':'),
        forall|i: int| 0 <= i <= rest.len() - 3 ==> #[trigger] rest.subrange(i, i + 3) != "://"@,
    ensures
        after_scheme(scheme + "://"@ + rest) == rest,
{
    reveal_strlit("://");
    let p = "://"@;
    let url = scheme + p + rest;
    let n = scheme.len() as int;
    text::lemma_find_text(url, p);
    assert(url.subrange(n, n + 3) =~= p);
    assert(text::stands_at(url, p, n));
    let i = text::find_text(url, p) as int;
    if i < n {
        assert(text::stands_at(url, p, i));
        assert(url.subrange(i, i + 3)[0] == url[i]);
        assert(url[i] == scheme[i]);
    }
    assert(i == n);
    let tail = url.subrange(n + 3, url.len() as int);
    assert(tail =~= rest);
    text::lemma_find_text(rest, p);
    let j = text::find_text(rest, p) as int;
    if j < rest.len() {
        assert(text::stands_at(rest, p, j));
    }
    assert(rest.subrange(0, j) =~= rest);
}

/// No character of `s` ends the authority part of a URL.
spec fn in_authority(s: Seq<char>) -> bool {
    forall|i: int|
        0 <= i < s.len() ==> #[trigger] s[i] != '/' && s[i] != '?' && s[i] != '#'
}

proof fn lemma_authority(auth: Seq<char>, path: Seq<char>)
    requires
        in_authority(auth),
        path.len() == 0 || path[0] == '/' || path[0] == '?' || path[0] == '#',
    ensures
        authority(auth + path) == auth,
{
    let all = auth + path;
    let m = auth.len() as int;
    assert forall|k: int| 0 <= k < m implies !ends_authority(#[trigger] all[k]) by {
        assert(all[k] == auth[k]);
    }
    if m < all.len() {
        assert(all[m] == path[0]);
    }
    lemma_authority_at(all, m);
    assert(all.subrange(0, m) =~= auth);
}

proof fn lemma_after_user(user: Seq<char>, rest: Seq<char>)
    requires
        user.len() == 0 || user.last() == '@',
        !rest.contains('@'),
    ensures
        after_at(user + rest) == rest,
{
    let all = user + rest;
    let u = user.len() as int;
    assert forall|k: int| u <= k < all.len() implies #[trigger] all[k] != '@' by {
        assert(all[k] == rest[k - u]);
    }
    if u > 0 {
        assert(all[u - 1] == user.last());
    }
    lemma_after_at(all, u);
    assert(all.subrange(u, all.len() as int) =~= rest);
}

/// The host of a URL is what is left of it without scheme, credentials, port and
/// path.
pub proof fn law_host(
    scheme: Seq<char>,
    user: Seq<char>,
    name: Seq<char>,
    port: Seq<char>,
    path: Seq<char>,
)
    requires
        !scheme.contains(':'),
        user.len() == 0 || user.last() == '@',
        forall|i: int|
            0 <= i < user.len() ==> #[trigger] user[i] != '/' && user[i] != '?' && user[i] != '#',
        forall|i: int|
            0 <= i < name.len() ==> #[trigger] name[i] != '/' && name[i] != '?' && name[i] != '#'
                && name[i] != '@' && name[i] != ':',
        port.len() == 0 || port[0] == ':',
        forall|i: int|
            0 <= i < port.len() ==> #[trigger] port[i] != '/' && port[i] != '?' && port[i] != '#'
                && port[i] != '@',
        path.len() == 0 || path[0] == '/' || path[0] == '?' || path[0] == '#',
        forall|i: int|
            0 <= i <= (user + (name + port) + path).len() - 3 ==> #[trigger] (user + (name + port)
                + path).subrange(i, i + 3) != "://"@,
    ensures
        host(scheme + "://"@ + (user + (name + port) + path)) == name,
{
    let h = name + port;
    let auth = user + h;
    lemma_after_scheme(scheme, auth + path);
    assert(in_authority(auth)) by {
        assert forall|k: int| 0 <= k < auth.len() implies #[trigger] auth[k] != '/' && auth[k] != '?'
            && auth[k] != '#' by {
            if k < user.len() {
                assert(auth[k] == user[k]);
            } else if k < user.len() + name.len() {
                assert(auth[k] == name[k - user.len()]);
            } else {
                assert(auth[k] == port[k - user.len() - name.len()]);
            }
        }
    }
    lemma_authority(auth, path);
    assert(!h.contains('@')) by {
        assert forall|k: int| 0 <= k < h.len() implies h[k] != '@' by {
            if k < name.len() {
                assert(h[k] == name[k]);
            } else {
                assert(h[k] == port[k - name.len()]);
            }
        }
    }
    lemma_after_user(user, h);
    assert forall|k: int| 0 <= k < name.len() implies #[trigger] h[k] != ':' by {
        assert(h[k] == name[k]);
    }
    if name.len() < h.len() {
        assert(h[name.len() as int] == port[0]);
    }
    text::lemma_find_at(h, ':', name.len() as int);
    assert(h.subrange(0, name.len() as int) =~= name);
}

/// A slug is the host, character by character: ASCII letters and digits, `-` and
/// `.` stay, anything else becomes `-`. Without a host it is `target`.
pub proof fn law_slug(url: Seq<char>, i: int)
    ensures
        host(url).len() == 0 ==> slug(url) == "target"@,
        host(url).len() > 0 ==> slug(url).len() == host(url).len(),
        0 <= i < host(url).len() && (('a' <= host(url)[i] && host(url)[i] <= 'z') || ('A' <= host(
            url,
        )[i] && host(url)[i] <= 'Z') || ('0' <= host(url)[i] && host(url)[i] <= '9') || host(url)[i]
            == '-' || host(url)[i] == '.') ==> slug(url)[i] == host(url)[i],
        0 <= i < host(url).len() && !(('a' <= host(url)[i] && host(url)[i] <= 'z') || ('A' <= host(
            url,
        )[i] && host(url)[i] <= 'Z') || ('0' <= host(url)[i] && host(url)[i] <= '9') || host(url)[i]
            == '-' || host(url)[i] == '.') ==> slug(url)[i] == '-',
{
}

}
