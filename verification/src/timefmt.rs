//! ISO 8601 rendering of unix timestamps, through `chrono`.
use vstd::prelude::*;

verus! {

/// The text that `chrono` renders for the UTC instant `secs` seconds plus `nanos`
/// nanoseconds after the unix epoch with the pattern `%Y-%m-%dT%H:%M:%S%.3fZ`, or `None`
/// when `chrono` refuses the instant.
pub uninterp spec fn utc_iso_millis(secs: int, nanos: int) -> Option<Seq<char>>;

/// Calls `chrono::DateTime::from_timestamp` and formats the instant with
/// `%Y-%m-%dT%H:%M:%S%.3fZ` (millisecond precision, `Z` suffix). `from_timestamp` refuses
/// a nanosecond part of two seconds or more, a nanosecond part of one second or more
/// outside the last second of a minute, and days outside the year range of `NaiveDate`;
/// it accepts every instant within ±8·10¹² s of the epoch with less than one second of
/// nanoseconds. The text itself is named, not described.
#[verifier::external_body]
fn format_utc_millis(secs: i64, nanos: u32) -> (r: Option<String>)
    ensures
        r matches Some(s) ==> utc_iso_millis(secs as int, nanos as int) == Some(s@),
        r is None ==> utc_iso_millis(secs as int, nanos as int) is None,
        nanos >= 2000000000 ==> r is None,
        nanos >= 1000000000 && (secs as int) % 60 != 59 ==> r is None,
        nanos < 1000000000 && -8000000000000 <= secs <= 8000000000000 ==> r is Some,
{
    match chrono::DateTime::from_timestamp(secs, nanos) {
        Some(dt) => Some(dt.format("%Y-%m-%dT%H:%M:%S%.3fZ").to_string()),
        None => None,
    }
}

/// The rendering of one timestamp, empty when `chrono` refuses it.
pub open spec fn iso_or_empty(secs: int, nanos: int) -> Seq<char> {
    match utc_iso_millis(secs, nanos) {
        Some(s) => s,
        None => Seq::empty(),
    }
}

/// Epochs as ISO 8601 strings: each (seconds, nanoseconds) pair rendered in UTC with
/// millisecond precision, or the empty string when it cannot be rendered.
pub fn epochs_iso(stamps: &Vec<(i64, u32)>) -> (r: Vec<String>)
    ensures
        r.len() == stamps.len(),
        forall|i: int|
            0 <= i < r.len() ==> (#[trigger] r@[i])@ == iso_or_empty(stamps@[i].0 as int, stamps@[i].1 as int),
        forall|i: int|
            0 <= i < r.len() && stamps@[i].1 < 1000000000 && -8000000000000 <= stamps@[i].0 <= 8000000000000
                ==> utc_iso_millis(stamps@[i].0 as int, stamps@[i].1 as int) == Some((#[trigger] r@[i])@),
{
    let mut r: Vec<String> = Vec::new();
    let mut i: usize = 0;
    while i < stamps.len()
        invariant
            i <= stamps.len(),
            r.len() == i,
            forall|k: int|
                0 <= k < i ==> (#[trigger] r@[k])@ == iso_or_empty(stamps@[k].0 as int, stamps@[k].1 as int),
            forall|k: int|
                0 <= k < i && stamps@[k].1 < 1000000000 && -8000000000000 <= stamps@[k].0 <= 8000000000000
                    ==> utc_iso_millis(stamps@[k].0 as int, stamps@[k].1 as int) == Some((#[trigger] r@[k])@),
        decreases stamps.len() - i,
    {
        let (secs, nanos) = stamps[i];
        let s = match format_utc_millis(secs, nanos) {
            Some(s) => s,
            None => String::new(),
        };
        r.push(s);
        i = i + 1;
    }
    r
}

} // verus!
