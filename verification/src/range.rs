//! The raw parameters of a range query: selector, start, end and step.
//!
//! Start, end and step are read as doubles by the caller, which does the
//! arithmetic on them; here they arrive as the bits of those doubles, and are
//! checked, clamped and put together.
use vstd::prelude::*;
use vstd::string::*;
use crate::numbers;
use crate::query::{QueryError, QueryView, RangeQuery};
use crate::selector;
use crate::text;

verus! {

/// Hard cap on the requested time range, in seconds (bounds scan time).
pub const MAX_RANGE_SECS: u64 = 604_800;

/// Bits of the double [`MAX_RANGE_SECS`].
pub const MAX_RANGE_BITS: u64 = 0x4122_7500_0000_0000;

/// Minimum step, in seconds.
pub const MIN_STEP_SECS: u64 = 1;

/// Seconds that one of the unit `c` has; `None` where `c` is no unit.
pub open spec fn unit_secs(c: char) -> Option<u64> {
    match c {
        's' => Some(1),
        'm' => Some(60),
        'h' => Some(3600),
        'd' => Some(86_400),
        'w' => Some(604_800),
        _ => None,
    }
}

/// The number of a step and the seconds that it counts: `90` or
/// `<n>s|m|h|d|w`.
pub open spec fn step_parts(s: Seq<char>) -> (Seq<char>, u64) {
    let t = text::trimmed(s);
    if t.len() > 0 && unit_secs(t.last()) is Some {
        (t.drop_last(), unit_secs(t.last())->0)
    } else {
        (t, 1)
    }
}

/// Splits a step into its number and the seconds that one of its unit has: the
/// step's length is the product of the two.
pub fn step_number(s: &str) -> (r: (String, u64))
    ensures
        (r.0@, r.1) == step_parts(s@),
{
    let t = text::trim(s);
    let v = text::chars_of(t);
    let n: usize = v.len();
    if n > 0 {
        let unit: u64 = match v[n - 1] {
            's' => 1,
            'm' => 60,
            'h' => 3600,
            'd' => 86_400,
            'w' => 604_800,
            _ => 0,
        };
        if unit > 0 {
            let number = text::text_of(&v, 0, n - 1);
            assert(number@ =~= t@.drop_last());
            return (number, unit);
        }
    }
    (t.to_string(), 1)
}

/// A step is at least one second and finite.
pub open spec fn step_fits(bits: u64) -> bool {
    numbers::ONE_BITS <= bits < numbers::INFINITY_BITS
}

/// Why a step is refused; `secs` is its length where its number can be read.
pub open spec fn step_fault(s: Seq<char>, secs: Option<u64>) -> Option<Seq<char>> {
    match secs {
        None => Some("invalid step "@ + text::debug_text(text::trimmed(s))),
        Some(bits) => if step_fits(bits) {
            None
        } else {
            Some("step must be >= 1s, got "@ + text::debug_text(text::trimmed(s)))
        },
    }
}

/// Parse `step`: plain seconds (`90`) or `<n>s|m|h|d|w` (`5m`), at least one
/// second. `secs` is the length of the step: the bits of the product of the two
/// parts that [`step_number`] finds, or `None` where the number cannot be read.
pub fn parse_step(s: &str, secs: Option<u64>) -> (r: Result<u64, QueryError>)
    ensures
        match r {
            Ok(bits) => step_fault(s@, secs) is None && secs == Some(bits),
            Err(e) => step_fault(s@, secs) == Some(e@),
        },
{
    let t = text::trim(s);
    match secs {
        None => Err(QueryError::new(text::cat("invalid step ", text::quoted(t).as_str()))),
        Some(bits) => {
            if bits < numbers::ONE_BITS || bits >= numbers::INFINITY_BITS {
                Err(
                    QueryError::new(
                        text::cat("step must be >= 1s, got ", text::quoted(t).as_str()),
                    ),
                )
            } else {
                Ok(bits)
            }
        },
    }
}

/// Why a time is refused; `secs` is what it says where it can be read.
pub open spec fn time_fault(s: Seq<char>, param: Seq<char>, secs: Option<u64>) -> Option<Seq<char>> {
    if secs is Some && numbers::finite_non_negative(secs->0) {
        None
    } else {
        Some(
            "invalid "@ + param + (" "@ + text::debug_text(s) + ": want unix seconds"@),
        )
    }
}

/// Parse `start` or `end`: unix seconds (fractional allowed). No keywords.
/// `secs` is the bits of the number that the trimmed text reads as, or `None`
/// where it is no number.
pub fn parse_time(s: &str, param: &str, secs: Option<u64>) -> (r: Result<u64, QueryError>)
    ensures
        match r {
            Ok(bits) => time_fault(s@, param@, secs) is None && secs == Some(bits),
            Err(e) => time_fault(s@, param@, secs) == Some(e@),
        },
{
    match secs {
        Some(bits) => {
            if numbers::is_finite_non_negative(bits) {
                return Ok(bits);
            }
        },
        None => {},
    }
    let tail = text::cat3(" ", text::quoted(s).as_str(), ": want unix seconds");
    Err(QueryError::new(text::cat3("invalid ", param, tail.as_str())))
}

/// A point in time.
#[derive(Debug, Clone, Copy)]
pub struct Moment {
    /// Bits of its unix seconds.
    pub secs: u64,
    /// Its whole microseconds since the epoch.
    pub micros: u64,
    /// Bits of its seconds since the start of the range.
    pub since_start: u64,
}

/// The length of a step.
#[derive(Debug, Clone, Copy)]
pub struct Width {
    /// Bits of its seconds.
    pub secs: u64,
    /// Its whole microseconds.
    pub micros: u64,
}

/// The parameters of a range query as numbers, `None` where the text of one is
/// no number.
#[derive(Debug, Clone, Copy)]
pub struct Readings {
    /// Range start.
    pub start: Option<Moment>,
    /// Range end.
    pub end: Option<Moment>,
    /// Step.
    pub step: Option<Width>,
    /// Current time.
    pub now: Moment,
}

/// The seconds of an optional time.
pub open spec fn moment_secs(m: Option<Moment>) -> Option<u64> {
    match m {
        Some(m) => Some(m.secs),
        None => None,
    }
}

/// The seconds of an optional step.
pub open spec fn width_secs(w: Option<Width>) -> Option<u64> {
    match w {
        Some(w) => Some(w.secs),
        None => None,
    }
}

/// The end of the range: not after now.
pub open spec fn clamped_end(end: Moment, now: Moment) -> Moment {
    if numbers::rank(end.secs) > numbers::rank(now.secs) {
        now
    } else {
        end
    }
}

/// The range query that the parameters ask for, or the message why they are
/// refused. The first parameter at fault decides: selector, start, end, step,
/// and then the range as a whole.
pub open spec fn range_query(
    query: Seq<char>,
    start: Seq<char>,
    end: Seq<char>,
    step: Seq<char>,
    r: Readings,
) -> Result<QueryView, Seq<char>> {
    match selector::selector(query) {
        Err(e) => Err(e),
        Ok((name, matchers)) => if time_fault(start, "start"@, moment_secs(r.start)) is Some {
            Err(time_fault(start, "start"@, moment_secs(r.start))->0)
        } else if time_fault(end, "end"@, moment_secs(r.end)) is Some {
            Err(time_fault(end, "end"@, moment_secs(r.end))->0)
        } else if step_fault(step, width_secs(r.step)) is Some {
            Err(step_fault(step, width_secs(r.step))->0)
        } else {
            let from = r.start->0;
            let to = clamped_end(r.end->0, r.now);
            if numbers::rank(to.secs) <= numbers::rank(from.secs) {
                Err("end must be after start"@)
            } else if to.since_start > MAX_RANGE_BITS {
                Err("range exceeds 7 days"@)
            } else {
                Ok(
                    QueryView {
                        name,
                        matchers,
                        start: from.micros,
                        end: to.micros,
                        step: r.step->0.micros,
                    },
                )
            }
        },
    }
}

/// Validate the four raw parameters into a [`RangeQuery`], clamping `end` to
/// now.
pub fn parse_range_query(query: &str, start: &str, end: &str, step: &str, readings: &Readings) -> (r:
    Result<RangeQuery, QueryError>)
    ensures
        match r {
            Ok(q) => range_query(query@, start@, end@, step@, *readings) == Ok::<_, Seq<char>>(
                q.deep_view(),
            ),
            Err(e) => range_query(query@, start@, end@, step@, *readings) == Err::<QueryView, _>(
                e@,
            ),
        },
{
    let parts = match selector::parse_selector(query) {
        Ok(p) => p,
        Err(e) => {
            return Err(e);
        },
    };
    let start_secs: Option<u64> = match readings.start {
        Some(m) => Some(m.secs),
        None => None,
    };
    match parse_time(start, "start", start_secs) {
        Ok(_) => {},
        Err(e) => {
            return Err(e);
        },
    }
    let end_secs: Option<u64> = match readings.end {
        Some(m) => Some(m.secs),
        None => None,
    };
    match parse_time(end, "end", end_secs) {
        Ok(_) => {},
        Err(e) => {
            return Err(e);
        },
    }
    let step_secs: Option<u64> = match readings.step {
        Some(w) => Some(w.secs),
        None => None,
    };
    match parse_step(step, step_secs) {
        Ok(_) => {},
        Err(e) => {
            return Err(e);
        },
    }
    let from: Moment = readings.start.unwrap();
    let mut to: Moment = readings.end.unwrap();
    let width: Width = readings.step.unwrap();
    if numbers::rank_of(to.secs) > numbers::rank_of(readings.now.secs) {
        to = readings.now;
    }
    if numbers::rank_of(to.secs) <= numbers::rank_of(from.secs) {
        return Err(QueryError::bad_data("end must be after start"));
    }
    if to.since_start > MAX_RANGE_BITS {
        return Err(QueryError::bad_data("range exceeds 7 days"));
    }
    Ok(
        RangeQuery {
            name: parts.0,
            matchers: parts.1,
            start_micros: from.micros,
            end_micros: to.micros,
            step_micros: width.micros,
        },
    )
}

/// An accepted range ends after it starts, not after now, and is no longer than
/// the cap; its step is at least a second.
pub proof fn law_accepted_range(
    query: Seq<char>,
    start: Seq<char>,
    end: Seq<char>,
    step: Seq<char>,
    r: Readings,
)
    requires
        range_query(query, start, end, step, r) is Ok,
    ensures
        ({
            let from = r.start->0;
            let to = clamped_end(r.end->0, r.now);
            &&& r.start is Some && r.end is Some && r.step is Some
            &&& numbers::rank(from.secs) < numbers::rank(to.secs)
            &&& numbers::rank(to.secs) <= numbers::rank(r.now.secs)
            &&& to.since_start <= MAX_RANGE_BITS
            &&& step_fits(r.step->0.secs)
        }),
{
}

/// An accepted request asks for exactly what its parameters say: the selector's
/// name and all of its matchers, the start and the step as they were given, and
/// the end as it was given unless that lies after now, which then takes its
/// place. Times are compared as numbers: negative zero is zero.
pub proof fn law_request_kept(
    query: Seq<char>,
    start: Seq<char>,
    end: Seq<char>,
    step: Seq<char>,
    r: Readings,
    q: QueryView,
)
    requires
        range_query(query, start, end, step, r) == Ok::<_, Seq<char>>(q),
    ensures
        selector::selector(query) == Ok::<_, Seq<char>>((q.name, q.matchers)),
        r.start is Some && q.start == r.start->0.micros,
        r.step is Some && q.step == r.step->0.micros,
        r.end is Some,
        ({
            let e = if r.end->0.secs == 0x8000_0000_0000_0000 {
                0
            } else {
                r.end->0.secs
            };
            let n = if r.now.secs == 0x8000_0000_0000_0000 {
                0
            } else {
                r.now.secs
            };
            q.end == if e > n {
                r.now.micros
            } else {
                r.end->0.micros
            }
        }),
{
}

/// A request is accepted exactly where its selector is one, start and end are
/// finite numbers that are not negative, the step is finite and at least one
/// second, the end (now, where that comes first) is after the start, and the
/// range is no longer than seven days.
pub proof fn law_request_accepted(
    query: Seq<char>,
    start: Seq<char>,
    end: Seq<char>,
    step: Seq<char>,
    r: Readings,
)
    ensures
        range_query(query, start, end, step, r) is Ok <==> ({
            let zero = 0x8000_0000_0000_0000u64;
            let inf = 0x7FF0_0000_0000_0000u64;
            let f = if r.start->0.secs == zero {
                0
            } else {
                r.start->0.secs
            };
            let e = if r.end->0.secs == zero {
                0
            } else {
                r.end->0.secs
            };
            let n = if r.now.secs == zero {
                0
            } else {
                r.now.secs
            };
            &&& selector::selector(query) is Ok
            &&& r.start is Some && (r.start->0.secs < inf || r.start->0.secs == zero)
            &&& r.end is Some && (r.end->0.secs < inf || r.end->0.secs == zero)
            &&& r.step is Some && 0x3FF0_0000_0000_0000 <= r.step->0.secs < inf
            &&& e > n ==> f < n && r.now.since_start <= 0x4122_7500_0000_0000
            &&& e <= n ==> f < e && r.end->0.since_start <= 0x4122_7500_0000_0000
        }),
{
}

/// A refused request is told the first thing that is wrong: the selector, then
/// start, end and step, then the range as a whole.
pub proof fn law_request_refused(
    query: Seq<char>,
    start: Seq<char>,
    end: Seq<char>,
    step: Seq<char>,
    r: Readings,
    e: Seq<char>,
)
    requires
        range_query(query, start, end, step, r) == Err::<QueryView, _>(e),
    ensures
        ({
            let zero = 0x8000_0000_0000_0000u64;
            let inf = 0x7FF0_0000_0000_0000u64;
            let start_ok = r.start is Some && (r.start->0.secs < inf || r.start->0.secs == zero);
            let end_ok = r.end is Some && (r.end->0.secs < inf || r.end->0.secs == zero);
            let step_ok = r.step is Some && 0x3FF0_0000_0000_0000 <= r.step->0.secs < inf;
            match selector::selector(query) {
                Err(why) => e == why,
                Ok(_) => if !start_ok {
                    e == "invalid "@ + "start"@ + (" "@ + text::debug_text(start)
                        + ": want unix seconds"@)
                } else if !end_ok {
                    e == "invalid "@ + "end"@ + (" "@ + text::debug_text(end)
                        + ": want unix seconds"@)
                } else if r.step is None {
                    e == "invalid step "@ + text::debug_text(text::trimmed(step))
                } else if !step_ok {
                    e == "step must be >= 1s, got "@ + text::debug_text(text::trimmed(step))
                } else {
                    let f = if r.start->0.secs == zero {
                        0
                    } else {
                        r.start->0.secs
                    };
                    let x = if r.end->0.secs == zero {
                        0
                    } else {
                        r.end->0.secs
                    };
                    let n = if r.now.secs == zero {
                        0
                    } else {
                        r.now.secs
                    };
                    if x <= f || n <= f {
                        e == "end must be after start"@
                    } else {
                        e == "range exceeds 7 days"@
                    }
                },
            }
        }),
{
}

/// A step is a number of seconds, or a number and a unit: seconds, minutes,
/// hours, days or weeks.
pub proof fn law_step_parts(s: Seq<char>, number: Seq<char>)
    ensures
        text::trimmed(s) == number.push('s') ==> step_parts(s) == (number, 1u64),
        text::trimmed(s) == number.push('m') ==> step_parts(s) == (number, 60u64),
        text::trimmed(s) == number.push('h') ==> step_parts(s) == (number, 3_600u64),
        text::trimmed(s) == number.push('d') ==> step_parts(s) == (number, 86_400u64),
        text::trimmed(s) == number.push('w') ==> step_parts(s) == (number, 604_800u64),
        text::trimmed(s).len() == 0 || (text::trimmed(s).last() != 's' && text::trimmed(s).last()
            != 'm' && text::trimmed(s).last() != 'h' && text::trimmed(s).last() != 'd'
            && text::trimmed(s).last() != 'w') ==> step_parts(s) == (text::trimmed(s), 1u64),
{
    assert(number.push('s').drop_last() =~= number);
    assert(number.push('m').drop_last() =~= number);
    assert(number.push('h').drop_last() =~= number);
    assert(number.push('d').drop_last() =~= number);
    assert(number.push('w').drop_last() =~= number);
}

}
