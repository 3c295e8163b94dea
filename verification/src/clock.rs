//! Ages of entries, as the pickers show them.

use vstd::prelude::*;
use crate::history::now;
use crate::text::{decimal, push_decimal, push_str};

verus! {

/// The age of something stamped `timestamp` seen at `now`, in the largest
/// whole unit among seconds, minutes, hours and days (`"42s"`, `"3m"`,
/// `"5h"`, `"2d"`); a timestamp in the future counts as age zero.
pub open spec fn spec_age(now: u64, timestamp: u64) -> Seq<char> {
    let diff: nat = if now >= timestamp { (now - timestamp) as nat } else { 0 };
    if diff < 60 {
        decimal(diff) + seq!['s']
    } else if diff < 3600 {
        decimal(diff / 60) + seq!['m']
    } else if diff < 86400 {
        decimal(diff / 3600) + seq!['h']
    } else {
        decimal(diff / 86400) + seq!['d']
    }
}

/// The age label of `timestamp` at time `now` (see [`spec_age`]).
pub fn relative_time_at(now: u64, timestamp: u64) -> (r: String)
    ensures
        r@ == spec_age(now, timestamp),
{
    let diff = now.saturating_sub(timestamp);
    let mut r = String::new();
    let (n, unit) = if diff < 60 {
        (diff, "s")
    } else if diff < 3600 {
        (diff / 60, "m")
    } else if diff < 86400 {
        (diff / 3600, "h")
    } else {
        (diff / 86400, "d")
    };
    proof {
        reveal_strlit("s");
        reveal_strlit("m");
        reveal_strlit("h");
        reveal_strlit("d");
    }
    push_decimal(&mut r, n);
    push_str(&mut r, unit);
    r
}

/// The age label of `timestamp` now, as the terminal picker shows it.
pub fn relative_time(timestamp: u64) -> (r: String)
    ensures
        exists|t: u64| r@ == spec_age(t, timestamp),
{
    relative_time_at(now(), timestamp)
}

/// The age label of `timestamp` at time `now` followed by `" ago"`, as the
/// graphical picker shows it.
pub fn relative_time_ago_at(now: u64, timestamp: u64) -> (r: String)
    ensures
        r@ == spec_age(now, timestamp) + " ago"@,
{
    let mut r = relative_time_at(now, timestamp);
    push_str(&mut r, " ago");
    r
}

/// The age label of `timestamp` now followed by `" ago"`.
pub fn relative_time_ago(timestamp: u64) -> (r: String)
    ensures
        exists|t: u64| r@ == spec_age(t, timestamp) + " ago"@,
{
    relative_time_ago_at(now(), timestamp)
}

} // verus!
