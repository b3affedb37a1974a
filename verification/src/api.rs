//! The hot query API over the buffer of recent samples.
use vstd::prelude::*;
use vstd::string::*;
use crate::matrix;
use crate::matrix::Matrix;
use crate::query;
use crate::query::{QueryError, QueryView, RecentBuffer};
use crate::range;
use crate::range::Readings;

verus! {

/// The parameters of a `query_range` request; a missing one is empty.
#[derive(Debug)]
pub struct RangeParams {
    /// The request has a `match[]` parameter.
    pub has_match: bool,
    /// `query`.
    pub query: String,
    /// `start`.
    pub start: String,
    /// `end`.
    pub end: String,
    /// `step`.
    pub step: String,
}

/// A step that is long enough has a microsecond at least.
pub open spec fn usable_step(r: Readings) -> bool {
    match r.step {
        Some(w) => range::step_fits(w.secs) ==> w.micros > 0,
        None => true,
    }
}

/// The query that the request asks for, or the message why it is refused.
pub open spec fn requested(p: RangeParams, r: Readings) -> Result<QueryView, Seq<char>> {
    if p.has_match {
        Err("match[] is not supported; put exact matchers in query={...}"@)
    } else {
        range::range_query(p.query@, p.start@, p.end@, p.step@, r)
    }
}

/// Answer a range query over recent samples. What is outside the supported
/// subset is an error, and an answer is never truncated.
pub fn query_range(buffer: &RecentBuffer, params: &RangeParams, readings: &Readings) -> (r: Result<
    Matrix,
    QueryError,
>)
    requires
        usable_step(*readings),
    ensures
        match requested(*params, *readings) {
            Err(e) => r is Err && r->Err_0@ == e,
            Ok(q) => {
                let want = query::answer(buffer@, q);
                let clamped = query::partial(buffer@, q);
                if query::total_points(want) > query::MAX_POINTS {
                    r is Err && r->Err_0@ == query::too_many_points(query::total_points(want))
                } else {
                    r is Ok && matrix::renders(r->Ok_0, want, clamped)
                }
            },
        },
{
    if params.has_match {
        return Err(
            QueryError::bad_data("match[] is not supported; put exact matchers in query={...}"),
        );
    }
    let q = match range::parse_range_query(
        params.query.as_str(),
        params.start.as_str(),
        params.end.as_str(),
        params.step.as_str(),
        readings,
    ) {
        Ok(q) => q,
        Err(e) => {
            return Err(e);
        },
    };
    match buffer.query(&q) {
        Ok(outcome) => Ok(matrix::render_matrix(&outcome)),
        Err(e) => Err(e),
    }
}

/// A request with `match[]` is refused, whatever else it says; any other is
/// read from its four parameters.
pub proof fn law_requested(p: RangeParams, r: Readings)
    ensures
        p.has_match ==> requested(p, r) == Err::<QueryView, _>(
            "match[] is not supported; put exact matchers in query={...}"@,
        ),
        !p.has_match ==> requested(p, r) == range::range_query(
            p.query@,
            p.start@,
            p.end@,
            p.step@,
            r,
        ),
{
}

}
