//! Wall-clock arithmetic on log timestamps (`YYYY.MM.DD HH:MM:SS`), used only
//! inside the moderation windows.
use vstd::prelude::*;

verus! {

/// The seconds since the Unix epoch of the wall time that a log timestamp
/// names, or `None` where the text is no such time.
pub uninterp spec fn stamp_seconds(t: Seq<u8>) -> Option<int>;

pub open spec fn opt_i64(o: Option<i64>) -> Option<int> {
    match o {
        Some(v) => Some(v as int),
        None => None,
    }
}

/// Relies on chrono's `NaiveDateTime::parse_from_str` with the format
/// `%Y.%m.%d %H:%M:%S` (read as UTF-8), and on `and_utc().timestamp()`: the
/// result depends on the text alone, and no time zone enters it.
#[verifier::external_body]
pub(crate) fn parse_stamp(t: &[u8]) -> (r: Option<i64>)
    ensures
        opt_i64(r) == stamp_seconds(t@),
{
    let s = match std::str::from_utf8(t) {
        Ok(s) => s,
        Err(_) => return None,
    };
    match chrono::NaiveDateTime::parse_from_str(s, "%Y.%m.%d %H:%M:%S") {
        Ok(d) => Some(d.and_utc().timestamp()),
        Err(_) => None,
    }
}

/// How long after an instance join a moderation line still counts as
/// carried over from the previous instance, in seconds.
pub const GUARD_SECONDS: i64 = 30;

/// Moderation lines about one target for one reason that lie this close
/// together, in seconds, are one event.
pub const DEDUP_SECONDS: i64 = 3;

/// A moderation line at `at` seconds falls inside the guard window that
/// opens with an instance join at `join` seconds.
pub open spec fn in_guard(join: int, at: int) -> bool {
    0 <= at - join < GUARD_SECONDS
}

/// Whether a moderation line at `at` is dropped as carry-over from before
/// the instance join at `join`: only where both times are known.
pub fn guarded(join: Option<i64>, at: Option<i64>) -> (r: bool)
    ensures
        r == (join is Some && at is Some && in_guard(join->0 as int, at->0 as int)),
{
    match (join, at) {
        (Some(j), Some(a)) => {
            let d = a as i128 - j as i128;
            0 <= d && d < GUARD_SECONDS as i128
        },
        _ => false,
    }
}

} // verus!
