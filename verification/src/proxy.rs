//! The dashboard's side of the worker API: where requests go, and what is
//! answered when the worker cannot be reached.
use vstd::prelude::*;
use vstd::string::*;
use crate::text;

verus! {

/// Largest request body that is forwarded, in bytes.
pub const MAX_FORWARDED_BODY: usize = 65_536;

/// `s` without the slashes at its end.
pub open spec fn without_slashes(s: Seq<char>) -> Seq<char>
    decreases s.len(),
{
    if s.len() > 0 && s.last() == '/' {
        without_slashes(s.drop_last())
    } else {
        s
    }
}

/// The worker's base URL, without slashes at its end.
pub fn upstream_base(upstream: &str) -> (r: String)
    ensures
        r@ == without_slashes(upstream@),
{
    let v = text::chars_of(upstream);
    let mut n: usize = v.len();
    assert(v@.subrange(0, n as int) =~= v@);
    while n > 0 && v[n - 1] == '/'
        invariant
            n <= v.len(),
            without_slashes(v@) == without_slashes(v@.subrange(0, n as int)),
        decreases n,
    {
        assert(v@.subrange(0, n as int).drop_last() =~= v@.subrange(0, n - 1));
        n = n - 1;
    }
    text::text_of(&v, 0, n)
}

/// Where a request for that path and query is forwarded to.
pub fn forwarded_url(base: &str, path_query: &str) -> (r: String)
    ensures
        r@ == base@ + path_query@,
{
    text::cat(base, path_query)
}

/// Where the worker's status is asked for.
pub fn status_url(base: &str) -> (r: String)
    ensures
        r@ == base@ + "/api/v1/status"@,
{
    text::cat(base, "/api/v1/status")
}

/// What came of forwarding a request.
#[derive(Debug)]
pub enum Forwarded {
    /// The worker answered with success.
    Answered,
    /// The request's body could not be taken.
    BodyRefused(String),
    /// The worker answered with this status.
    Status(String),
    /// The worker's answer could not be read.
    Unread(String),
    /// The worker could not be reached.
    Unreachable(String),
}

/// What is said of a request that could not be forwarded.
pub open spec fn gateway_error(f: Forwarded) -> Option<Seq<char>> {
    match f {
        Forwarded::Answered => None,
        Forwarded::BodyRefused(e) => Some("request body too large: "@ + e@),
        Forwarded::Status(s) => Some("upstream returned "@ + s@),
        Forwarded::Unread(e) => Some("upstream read failed: "@ + e@),
        Forwarded::Unreachable(e) => Some("collector offline: "@ + e@),
    }
}

/// The detail of the 503 that a failed request is answered with; `None` where
/// the worker's answer is passed on.
pub fn gateway_detail(f: &Forwarded) -> (r: Option<String>)
    ensures
        r.deep_view() == gateway_error(*f),
{
    match f {
        Forwarded::Answered => None,
        Forwarded::BodyRefused(e) => Some(text::cat("request body too large: ", e.as_str())),
        Forwarded::Status(s) => Some(text::cat("upstream returned ", s.as_str())),
        Forwarded::Unread(e) => Some(text::cat("upstream read failed: ", e.as_str())),
        Forwarded::Unreachable(e) => Some(text::cat("collector offline: ", e.as_str())),
    }
}

/// What came of asking the worker for its status.
#[derive(Debug)]
pub enum StatusReply {
    /// The body of a successful answer.
    Body(Vec<u8>),
    /// The answer could not be read.
    Unread(String),
    /// The worker answered with this status.
    Status(String),
    /// The worker could not be reached.
    Unreachable(String),
}

/// What the dashboard's status endpoint answers, always with 200.
#[derive(Debug)]
pub enum StatusAnswer {
    /// The worker's status, as JSON.
    Online(String),
    /// The worker is offline, and why.
    Offline(String),
}

/// What a [`StatusAnswer`] says.
pub enum StatusAnswerView {
    Online(Seq<char>),
    Offline(Seq<char>),
}

impl DeepView for StatusAnswer {
    type V = StatusAnswerView;

    open spec fn deep_view(&self) -> StatusAnswerView {
        match self {
            StatusAnswer::Online(s) => StatusAnswerView::Online(s@),
            StatusAnswer::Offline(s) => StatusAnswerView::Offline(s@),
        }
    }
}

/// The JSON value of these bytes as `serde_json` writes it, or what it says is
/// wrong with them.
pub uninterp spec fn json_text(bytes: Seq<u8>) -> Result<Seq<char>, Seq<char>>;

/// `serde_json::from_slice` into a `Value`, which is written out again with its
/// `to_string`; an error is turned into its text. The contract names the result
/// and says no more of it: what is JSON, and how it is written, is that crate's
/// own rule.
#[verifier::external_body]
fn read_json(bytes: &Vec<u8>) -> (r: Result<String, String>)
    ensures
        match r {
            Ok(s) => json_text(bytes@) == Ok::<_, Seq<char>>(s@),
            Err(e) => json_text(bytes@) == Err::<Seq<char>, _>(e@),
        },
{
    serde_json::from_slice::<serde_json::Value>(bytes).map(|v| v.to_string()).map_err(
        |e| e.to_string(),
    )
}

/// The answer for a body that reads as `parsed`.
pub open spec fn body_answer(parsed: Result<Seq<char>, Seq<char>>) -> StatusAnswerView {
    match parsed {
        Ok(json) => StatusAnswerView::Online(json),
        Err(e) => StatusAnswerView::Offline("bad upstream status body: "@ + e),
    }
}

/// The answer for a body, from what reading it gave: the JSON, or why it is
/// none.
pub fn answer_body(parsed: Result<String, String>) -> (r: StatusAnswer)
    ensures
        r.deep_view() == body_answer(
            match parsed {
                Ok(json) => Ok(json@),
                Err(e) => Err(e@),
            },
        ),
{
    match parsed {
        Ok(json) => StatusAnswer::Online(json),
        Err(e) => StatusAnswer::Offline(text::cat("bad upstream status body: ", e.as_str())),
    }
}

/// Answer the status endpoint: the worker's own status, or that it is offline.
pub fn dashboard_status(reply: StatusReply) -> (r: StatusAnswer)
    ensures
        r.deep_view() == match reply {
            StatusReply::Body(bytes) => body_answer(json_text(bytes@)),
            StatusReply::Unread(e) => StatusAnswerView::Offline("upstream read failed: "@ + e@),
            StatusReply::Status(s) => StatusAnswerView::Offline("upstream returned "@ + s@),
            StatusReply::Unreachable(e) => StatusAnswerView::Offline("collector offline: "@ + e@),
        },
{
    match reply {
        StatusReply::Body(bytes) => answer_body(read_json(&bytes)),
        StatusReply::Unread(e) => StatusAnswer::Offline(
            text::cat("upstream read failed: ", e.as_str()),
        ),
        StatusReply::Status(s) => StatusAnswer::Offline(
            text::cat("upstream returned ", s.as_str()),
        ),
        StatusReply::Unreachable(e) => StatusAnswer::Offline(
            text::cat("collector offline: ", e.as_str()),
        ),
    }
}

/// Slashes at the end of the configured URL make no difference: a forwarded
/// path never follows a second slash.
pub proof fn law_base_has_no_slash(upstream: Seq<char>)
    ensures
        without_slashes(upstream).len() > 0 ==> without_slashes(upstream).last() != '/',
        without_slashes(upstream.push('/')) == without_slashes(upstream),
    decreases upstream.len(),
{
    assert(upstream.push('/').drop_last() =~= upstream);
    if upstream.len() > 0 && upstream.last() == '/' {
        law_base_has_no_slash(upstream.drop_last());
    }
}

/// The base is the configured URL without the slashes at its end, and nothing
/// else is taken away.
pub proof fn law_base(upstream: Seq<char>)
    ensures
        without_slashes(upstream).is_prefix_of(upstream),
        forall|i: int|
            without_slashes(upstream).len() <= i < upstream.len() ==> #[trigger] upstream[i] == '/',
        without_slashes(upstream).len() > 0 ==> without_slashes(upstream)[without_slashes(
            upstream,
        ).len() - 1] != '/',
    decreases upstream.len(),
{
    if upstream.len() > 0 && upstream.last() == '/' {
        let init = upstream.drop_last();
        law_base(init);
        let w = without_slashes(upstream);
        assert(w =~= init.subrange(0, w.len() as int));
        assert(upstream.subrange(0, w.len() as int) =~= w);
        assert forall|i: int| w.len() <= i < upstream.len() implies #[trigger] upstream[i]
            == '/' by {
            if i < init.len() {
                assert(init[i] == upstream[i]);
            }
        }
    } else {
        assert(upstream.subrange(0, upstream.len() as int) =~= upstream);
    }
}

/// What is said of a request that was not answered tells what went wrong; an
/// answered one is passed on.
pub proof fn law_gateway_error(detail: String)
    ensures
        gateway_error(Forwarded::Answered) is None,
        gateway_error(Forwarded::BodyRefused(detail)) == Some("request body too large: "@ + detail@),
        gateway_error(Forwarded::Status(detail)) == Some("upstream returned "@ + detail@),
        gateway_error(Forwarded::Unread(detail)) == Some("upstream read failed: "@ + detail@),
        gateway_error(Forwarded::Unreachable(detail)) == Some("collector offline: "@ + detail@),
{
}

/// A body that is JSON is handed on; any other means that the worker is offline,
/// and why.
pub proof fn law_body_answer(json: Seq<char>, e: Seq<char>)
    ensures
        body_answer(Ok(json)) == StatusAnswerView::Online(json),
        body_answer(Err(e)) == StatusAnswerView::Offline("bad upstream status body: "@ + e),
{
}

}
