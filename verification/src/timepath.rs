//! Clock readings, calendar arithmetic through `chrono`, and the
//! parser for the time stamp encoded in staging parquet file names.

use chrono::TimeZone;
use vstd::prelude::*;

verus! {

/// The UTC epoch second that a calendar date and time denotes, `None`
/// when the values form no valid date.  A function of its arguments
/// alone.
pub uninterp spec fn spec_utc_epoch(y: int, mo: int, d: int, h: int, mi: int) -> Option<i64>;

/// Relies on `chrono::TimeZone::with_ymd_and_hms` for `Utc`: the result
/// depends on the calendar values alone, is single-valued for UTC, and
/// is present for every valid date and time in the four-digit years.
#[verifier::external_body]
pub fn utc_epoch_seconds(y: i32, mo: u32, d: u32, h: u32, mi: u32) -> (r: Option<i64>)
    ensures
        r == spec_utc_epoch(y as int, mo as int, d as int, h as int, mi as int),
        (0 <= y <= 9999 && 1 <= mo <= 12 && 1 <= d <= 28 && h <= 23 && mi <= 59) ==> r is Some,
{
    match chrono::Utc.with_ymd_and_hms(y, mo, d, h, mi, 0).single() {
        Some(dt) => Some(dt.timestamp()),
        None => None,
    }
}

/// The current UTC wall clock, in microseconds since the epoch.
///
/// Relies on `chrono::Utc::now`; nothing is promised of the reading.
#[verifier::external_body]
pub fn now_timestamp_micros() -> (r: i64)
{
    chrono::Utc::now().timestamp_micros()
}

/// An ASCII decimal digit.
pub open spec fn is_digit(c: char) -> bool {
    '0' <= c && c <= '9'
}

pub open spec fn digit_val(c: char) -> int {
    c as int - '0' as int
}

/// The staging file-name layout whose prefix encodes a minute:
/// `date=YYYY-MM-DD.hour=HH.minute=MM` followed by anything.
pub open spec fn parquet_path_wf(s: Seq<char>) -> bool {
    &&& s.len() >= 33
    &&& s.subrange(0, 5) == "date="@
    &&& is_digit(s[5]) && is_digit(s[6]) && is_digit(s[7]) && is_digit(s[8])
    &&& s[9] == '-'
    &&& is_digit(s[10]) && is_digit(s[11])
    &&& s[12] == '-'
    &&& is_digit(s[13]) && is_digit(s[14])
    &&& s.subrange(15, 21) == ".hour="@
    &&& is_digit(s[21]) && is_digit(s[22])
    &&& s.subrange(23, 31) == ".minute="@
    &&& is_digit(s[31]) && is_digit(s[32])
}

/// The year, month, day, hour and minute written in the name.
pub open spec fn path_year(s: Seq<char>) -> int {
    digit_val(s[5]) * 1000 + digit_val(s[6]) * 100 + digit_val(s[7]) * 10 + digit_val(s[8])
}

pub open spec fn path_month(s: Seq<char>) -> int {
    digit_val(s[10]) * 10 + digit_val(s[11])
}

pub open spec fn path_day(s: Seq<char>) -> int {
    digit_val(s[13]) * 10 + digit_val(s[14])
}

pub open spec fn path_hour(s: Seq<char>) -> int {
    digit_val(s[21]) * 10 + digit_val(s[22])
}

pub open spec fn path_minute(s: Seq<char>) -> int {
    digit_val(s[31]) * 10 + digit_val(s[32])
}

/// Read the digit at position `i` of `s`.
fn read_digit(s: &str, i: usize) -> (r: u32)
    requires
        i < s@.len(),
        is_digit(s@[i as int]),
    ensures
        r == digit_val(s@[i as int]),
        r <= 9,
{
    let c = s.get_char(i);
    (c as u32) - 48
}

/// The UTC epoch second encoded in a staging parquet file name.
///
/// The name carries its date, hour and minute at fixed positions; the
/// result is the epoch second of that minute, `None` when the digits
/// form no valid calendar date.
pub fn time_from_path(filename: &str) -> (r: Option<i64>)
    requires
        parquet_path_wf(filename@),
    ensures
        r == spec_utc_epoch(
            path_year(filename@),
            path_month(filename@),
            path_day(filename@),
            path_hour(filename@),
            path_minute(filename@),
        ),
{
    let y = read_digit(filename, 5) * 1000 + read_digit(filename, 6) * 100 + read_digit(
        filename,
        7,
    ) * 10 + read_digit(filename, 8);
    let mo = read_digit(filename, 10) * 10 + read_digit(filename, 11);
    let d = read_digit(filename, 13) * 10 + read_digit(filename, 14);
    let h = read_digit(filename, 21) * 10 + read_digit(filename, 22);
    let mi = read_digit(filename, 31) * 10 + read_digit(filename, 32);
    utc_epoch_seconds(y as i32, mo, d, h, mi)
}

/// Whether a staging file whose name encodes `time` overlaps the query
/// range `[start, end]`.
pub fn path_intersects_query(time: i64, start: i64, end: i64) -> (r: bool)
    ensures
        r == (start <= time && time <= end),
{
    start <= time && time <= end
}

} // verus!
