//! Points in time, as they are shown.

use crate::text::{dec, dec_u64, opt_text};
use vstd::prelude::*;
use vstd::string::*;

verus! {

/// The format of times in machine-readable output.
pub const ISO_FORMAT: &'static str = "%Y-%m-%dT%H:%M:%SZ";

/// The format of times to the minute.
pub const MINUTE_FORMAT: &'static str = "%Y-%m-%d %H:%M UTC";

/// The format of days.
pub const DAY_FORMAT: &'static str = "%Y-%m-%d";

/// Whether `fmt` is one of the formats that are in use.
pub open spec fn known_format(fmt: Seq<char>) -> bool {
    fmt == ISO_FORMAT@ || fmt == MINUTE_FORMAT@ || fmt == DAY_FORMAT@
}

/// What `chrono` writes, in UTC and by a format, for the instant that lies
/// `secs` seconds from the epoch; nothing where that is out of its range.
pub uninterp spec fn utc_time(secs: i64, fmt: Seq<char>) -> Option<Seq<char>>;

/// Calls `chrono::DateTime::from_timestamp` and formats what it gives. The text
/// is a function of the seconds and the format alone, as the time zone is UTC.
/// Writing fails, by a panic, only for a format that `chrono` does not know.
#[verifier::external_body]
fn utc_text(secs: i64, fmt: &str) -> (r: Option<String>)
    requires
        known_format(fmt@),
    ensures
        opt_text(r) == utc_time(secs, fmt@),
{
    match chrono::DateTime::<chrono::Utc>::from_timestamp(secs, 0) {
        Some(dt) => Some(dt.format(fmt).to_string()),
        None => None,
    }
}

/// A time in machine-readable output.
pub fn iso_time(secs: i64) -> (r: Option<String>)
    ensures
        opt_text(r) == utc_time(secs, ISO_FORMAT@),
{
    utc_text(secs, ISO_FORMAT)
}

/// A time to the minute.
pub fn minute_time(secs: i64) -> (r: Option<String>)
    ensures
        opt_text(r) == utc_time(secs, MINUTE_FORMAT@),
{
    utc_text(secs, MINUTE_FORMAT)
}

/// A day.
pub fn day(secs: i64) -> (r: Option<String>)
    ensures
        opt_text(r) == utc_time(secs, DAY_FORMAT@),
{
    utc_text(secs, DAY_FORMAT)
}

/// The seconds from `then` to `now`; none where `then` is later.
pub open spec fn elapsed(then: int, now: int) -> nat {
    if now > then {
        (now - then) as nat
    } else {
        0
    }
}

/// A span of seconds, in its largest unit.
pub open spec fn ago_text(secs: nat) -> Seq<char> {
    if secs < 60 {
        dec(secs) + "s ago"@
    } else if secs < 3600 {
        dec(secs / 60) + "m ago"@
    } else if secs < 86400 {
        dec(secs / 3600) + "h ago"@
    } else {
        dec(secs / 86400) + "d ago"@
    }
}

/// How long ago a time was, by whether it is a time at all.
pub open spec fn age_text(exists: bool, then: int, now: int) -> Seq<char> {
    if exists {
        ago_text(elapsed(then, now))
    } else {
        "unknown"@
    }
}

/// How long ago a time was, by whether it is a time at all.
pub fn age_of(exists: bool, then: i64, now: i64) -> (r: String)
    ensures
        r@ == age_text(exists, then as int, now as int),
{
    if !exists {
        return "unknown".to_owned();
    }
    let secs: u64 = if now > then {
        (now as i128 - then as i128) as u64
    } else {
        0
    };
    if secs < 60 {
        dec_u64(secs).concat("s ago")
    } else if secs < 3600 {
        dec_u64(secs / 60).concat("m ago")
    } else if secs < 86400 {
        dec_u64(secs / 3600).concat("h ago")
    } else {
        dec_u64(secs / 86400).concat("d ago")
    }
}

/// How long before `now` a time was.
pub fn format_age(unix_ts: i64, now: i64) -> (r: String)
    ensures
        r@ == age_text(utc_time(unix_ts, ISO_FORMAT@) is Some, unix_ts as int, now as int),
{
    let exists = iso_time(unix_ts).is_some();
    age_of(exists, unix_ts, now)
}

/// An age is told in whole units that have passed, the largest that has: `q` of
/// them have, and `q + 1` have not.
pub proof fn law_an_age_is_told_in_whole_units(secs: nat)
    ensures
        secs < 60 ==> ago_text(secs) == dec(secs) + "s ago"@,
        60 <= secs < 3600 ==> exists|q: nat|
            60 * q <= secs < 60 * (q + 1) && ago_text(secs) == #[trigger] dec(q) + "m ago"@,
        3600 <= secs < 86400 ==> exists|q: nat|
            3600 * q <= secs < 3600 * (q + 1) && ago_text(secs) == #[trigger] dec(q) + "h ago"@,
        86400 <= secs ==> exists|q: nat|
            86400 * q <= secs < 86400 * (q + 1) && ago_text(secs) == #[trigger] dec(q) + "d ago"@,
{
    if 60 <= secs < 3600 {
        assert(ago_text(secs) == dec(secs / 60) + "m ago"@);
    } else if 3600 <= secs < 86400 {
        assert(ago_text(secs) == dec(secs / 3600) + "h ago"@);
    } else if 86400 <= secs {
        assert(ago_text(secs) == dec(secs / 86400) + "d ago"@);
    }
}

/// What lies ahead has no age, and what is no time has none either.
pub proof fn law_an_age_is_the_time_between(then: int, now: int)
    ensures
        then <= now ==> then + elapsed(then, now) == now,
        now <= then ==> elapsed(then, now) == 0,
        age_text(true, then, now) == ago_text(elapsed(then, now)),
        age_text(false, then, now) == "unknown"@,
{
}

} // verus!
