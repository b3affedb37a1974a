//! The wall clock, and what is made of a reading of it.
use vstd::prelude::*;

verus! {

/// A reading of the wall clock: whole seconds since the Unix epoch and the
/// nanoseconds of the second begun; `None` where the clock stands before the
/// epoch.
pub type Reading = Option<(u64, u32)>;

/// `std::time::SystemTime::elapsed` of the Unix epoch: the time since then,
/// taken apart with `as_secs` and `subsec_nanos`. Which time it is is not
/// stated; the nanoseconds are always below one billion.
#[verifier::external_body]
fn read() -> (r: Reading)
    ensures
        match r {
            Some(t) => t.1 < 1_000_000_000,
            None => true,
        },
{
    std::time::SystemTime::UNIX_EPOCH.elapsed().ok().map(|d| (d.as_secs(), d.subsec_nanos()))
}

/// Whole seconds of a reading (0 on clock skew).
pub fn unix_secs(reading: Reading) -> (r: u64)
    ensures
        r == match reading {
            Some(t) => t.0,
            None => 0,
        },
{
    match reading {
        Some(t) => t.0,
        None => 0,
    }
}

/// Microseconds since the epoch, as far as a `u64` counts.
pub open spec fn micros(secs: u64, nanos: u32) -> u64 {
    let n = secs * 1_000_000 + (nanos / 1000) as int;
    if n <= u64::MAX {
        n as u64
    } else {
        u64::MAX
    }
}

/// Microseconds of a reading (0 on clock skew, at most `u64::MAX`).
pub fn unix_micros(reading: Reading) -> (r: u64)
    ensures
        r == match reading {
            Some(t) => micros(t.0, t.1),
            None => 0,
        },
{
    match reading {
        Some(t) => {
            let n: u128 = (t.0 as u128) * 1_000_000 + (t.1 / 1000) as u128;
            if n <= u64::MAX as u128 {
                n as u64
            } else {
                u64::MAX
            }
        },
        None => 0,
    }
}

/// Current time, whole seconds since the Unix epoch (0 on clock skew).
#[must_use]
pub fn now_unix() -> u64 {
    unix_secs(read())
}

/// Current time, micros since the Unix epoch (0 on clock skew).
#[must_use]
pub fn now_micros() -> u64 {
    unix_micros(read())
}

/// Microseconds are a millionth of a second and a thousand nanoseconds; a count
/// that does not fit stays at the greatest number.
pub proof fn law_micros(secs: u64, nanos: u32)
    ensures
        ({
            let n = micros(secs, nanos);
            let t = secs * 1_000_000_000 + nanos;
            &&& t < u64::MAX * 1_000 ==> n * 1_000 <= t < (n + 1) * 1_000
            &&& t >= (u64::MAX + 1) * 1_000 ==> n == u64::MAX
        }),
{
}

}
