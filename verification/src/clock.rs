//! What is left to the clock and to chance: times and names of downloads.
use crate::text::{is_digit, opt_view};
use chrono::{Offset, TimeZone};
use vstd::prelude::*;

verus! {

/// How a time is written in notes and records.
pub const STAMP_FORMAT: &'static str = "%Y-%m-%d %H:%M:%S %:z";

/// How a time is written in the log.
pub const LOG_FORMAT: &'static str = "[%Y/%m/%d %H:%M:%S]";

/// Whether a text is a time, with a date of a year of at least four digits, the time of
/// day and the distance from universal time, such as `2026-04-01 09:30:00 +09:00`.
pub open spec fn is_stamp(s: Seq<char>) -> bool {
    let n = s.len() as int;
    &&& n >= 26
    &&& is_digit(s[n - 26]) && is_digit(s[n - 25]) && is_digit(s[n - 24]) && is_digit(s[n - 23])
    &&& s[n - 22] == '-' && is_digit(s[n - 21]) && is_digit(s[n - 20])
    &&& s[n - 19] == '-' && is_digit(s[n - 18]) && is_digit(s[n - 17])
    &&& s[n - 16] == ' ' && is_digit(s[n - 15]) && is_digit(s[n - 14])
    &&& s[n - 13] == ':' && is_digit(s[n - 12]) && is_digit(s[n - 11])
    &&& s[n - 10] == ':' && is_digit(s[n - 9]) && is_digit(s[n - 8])
    &&& s[n - 7] == ' ' && (s[n - 6] == '+' || s[n - 6] == '-')
    &&& is_digit(s[n - 5]) && is_digit(s[n - 4])
    &&& s[n - 3] == ':' && is_digit(s[n - 2]) && is_digit(s[n - 1])
}

/// Whether a text is the time of a line in the log, such as `[2026/04/01 09:30:00]`, with
/// a year of at least four digits.
pub open spec fn is_log_time(s: Seq<char>) -> bool {
    let n = s.len() as int;
    &&& n >= 21
    &&& s[0] == '['
    &&& is_digit(s[n - 20]) && is_digit(s[n - 19]) && is_digit(s[n - 18]) && is_digit(s[n - 17])
    &&& s[n - 16] == '/' && is_digit(s[n - 15]) && is_digit(s[n - 14])
    &&& s[n - 13] == '/' && is_digit(s[n - 12]) && is_digit(s[n - 11])
    &&& s[n - 10] == ' ' && is_digit(s[n - 9]) && is_digit(s[n - 8])
    &&& s[n - 7] == ':' && is_digit(s[n - 6]) && is_digit(s[n - 5])
    &&& s[n - 4] == ':' && is_digit(s[n - 3]) && is_digit(s[n - 2])
    &&& s[n - 1] == ']'
}

/// Whether a time, in seconds since the start of 1970, is within the calendar, which reaches
/// from the year -262143 to the year 262142.
pub open spec fn in_calendar(seconds: int) -> bool {
    -8_334_601_228_800 <= seconds <= 8_210_266_876_799
}

/// Whether a time, in seconds since the start of 1970, is one that the clock of a machine
/// can show: not before 1970, and within the calendar.
pub open spec fn is_clock(seconds: int) -> bool {
    0 <= seconds && in_calendar(seconds)
}

/// Whether a number of seconds is a distance from universal time: less than a day.
pub open spec fn is_offset(offset: int) -> bool {
    -86_400 < offset < 86_400
}

/// The text of a time, in seconds since the start of 1970, at a distance from universal
/// time, in a format of `chrono`.
pub uninterp spec fn time_text(seconds: int, offset: int, format: Seq<char>) -> Seq<char>;

/// Calls `timestamp_opt` of a `chrono::FixedOffset`, and `format` and `to_string` of the
/// time that it gives. A time of the calendar in one of the two formats has a text, and the
/// text has the shape that its format says.
#[verifier::external_body]
fn format_time(seconds: i64, offset: i32, format: &str) -> (r: String)
    requires
        in_calendar(seconds as int),
        is_offset(offset as int),
        format@ == STAMP_FORMAT@ || format@ == LOG_FORMAT@,
    ensures
        r@ == time_text(seconds as int, offset as int, format@),
        format@ == STAMP_FORMAT@ ==> is_stamp(r@),
        format@ == LOG_FORMAT@ ==> is_log_time(r@),
{
    let zone = chrono::FixedOffset::east_opt(offset).unwrap();
    zone.timestamp_opt(seconds, 0).unwrap().format(format).to_string()
}

/// Calls `chrono::Local::now` and its `timestamp`: the seconds since the start of 1970,
/// before which `chrono` has no clock, within its calendar. Which they are is left to the
/// clock of the machine.
#[verifier::external_body]
fn now_seconds() -> (r: i64)
    ensures
        is_clock(r as int),
{
    chrono::Local::now().timestamp()
}

/// Calls `chrono::TimeZone::offset_from_utc_datetime` of `chrono::Local`: how far the time
/// of this place is from universal time at some time. It depends on the time zone that is
/// set on the machine.
#[verifier::external_body]
fn local_offset(seconds: i64) -> (r: i32)
    requires
        in_calendar(seconds as int),
    ensures
        is_offset(r as int),
{
    let time = chrono::DateTime::from_timestamp(seconds, 0).unwrap().naive_utc();
    chrono::Local.offset_from_utc_datetime(&time).local_minus_utc()
}

/// Calls `chrono::TimeZone::offset_from_utc_datetime` of `chrono_tz::Asia::Tokyo`: how far
/// the time of Japan is from universal time at some time, which since 1970 is nine hours.
#[verifier::external_body]
fn tokyo_offset(seconds: i64) -> (r: i32)
    requires
        0 <= seconds,
        in_calendar(seconds as int),
    ensures
        r == 32_400,
{
    let time = chrono::DateTime::from_timestamp(seconds, 0).unwrap().naive_utc();
    chrono_tz::Asia::Tokyo.offset_from_utc_datetime(&time).fix().local_minus_utc()
}

/// The time some hours after another, if it is within the calendar.
pub fn later(seconds: i64, hours: i64) -> (r: Option<i64>)
    ensures
        match r {
            Some(t) => t == seconds + 3600 * hours && in_calendar(t as int),
            None => !in_calendar(seconds + 3600 * hours),
        },
{
    let t: i128 = seconds as i128 + 3600 * (hours as i128);
    if -8_334_601_228_800 <= t && t <= 8_210_266_876_799 {
        Some(t as i64)
    } else {
        None
    }
}

/// The text of the time some hours after another, at a distance from universal time, if it
/// is within the calendar.
pub open spec fn stamp_after(seconds: int, hours: int, offset: int) -> Option<Seq<char>> {
    if in_calendar(seconds + 3600 * hours) {
        Some(time_text(seconds + 3600 * hours, offset, STAMP_FORMAT@))
    } else {
        None
    }
}

/// The text of the time some hours after another, at a distance from universal time.
pub fn stamp_at(seconds: i64, hours: i64, offset: i32) -> (r: Option<String>)
    requires
        is_offset(offset as int),
    ensures
        opt_view(r) == stamp_after(seconds as int, hours as int, offset as int),
        r matches Some(s) ==> is_stamp(s@),
{
    match later(seconds, hours) {
        Some(t) => Some(format_time(t, offset, STAMP_FORMAT)),
        None => None,
    }
}

/// Whether a text is that of the time some hours after what the clock shows, wherever the
/// machine stands; nothing where the calendar has no such time.
pub open spec fn is_time_after(text: Option<Seq<char>>, hours: int) -> bool {
    exists|now: int, offset: int|
        is_clock(now) && is_offset(offset) && text == #[trigger] stamp_after(now, hours, offset)
}

/// Whether a time so many hours from now is within the calendar, whatever the clock shows.
pub open spec fn is_in_reach(hours: int) -> bool {
    forall|now: int| #[trigger] is_clock(now) ==> in_calendar(now + 3600 * hours)
}

/// Whether a time so many hours from now is beyond the calendar, whatever the clock shows.
pub open spec fn is_out_of_reach(hours: int) -> bool {
    forall|now: int| #[trigger] is_clock(now) ==> !in_calendar(now + 3600 * hours)
}

/// No time to come is in reach for certain, for the clock may stand at the end of the
/// calendar; what lies back as far as the calendar does from 1970 is. Beyond reach is what
/// lies further ahead than the calendar does from 1970, or further back than it is long.
pub proof fn law_reach(hours: int)
    ensures
        is_in_reach(hours) <==> -2_315_167_008 <= hours <= 0,
        is_out_of_reach(hours) <==> hours < -4_595_796_695 || hours > 2_280_629_687,
{
    assert(is_clock(0) && is_clock(8_210_266_876_799));
    if -2_280_629_687 <= hours < 0 {
        assert(is_clock(-3600 * hours));
    }
}

/// The time some hours from now, if it is within the calendar.
pub fn time_after(hours: i64) -> (r: Option<String>)
    ensures
        is_time_after(opt_view(r), hours as int),
        r matches Some(s) ==> is_stamp(s@),
        is_in_reach(hours as int) ==> r is Some,
        is_out_of_reach(hours as int) ==> r is None,
{
    let now = now_seconds();
    let offset = match later(now, hours) {
        Some(t) => local_offset(t),
        None => 0,
    };
    let r = stamp_at(now, hours, offset);
    proof {
        assert(opt_view(r) == stamp_after(now as int, hours as int, offset as int));
    }
    r
}

/// The time now.
pub fn current_time() -> (r: String)
    ensures
        is_time_after(Some(r@), 0),
        is_stamp(r@),
{
    match time_after(0) {
        Some(now) => now,
        None => String::new(),
    }
}

/// The time of a line in the log, in Japan.
pub open spec fn log_time_text(seconds: int) -> Seq<char> {
    time_text(seconds, 32_400, LOG_FORMAT@)
}

/// The time of a line in the log, in Japan.
pub fn log_time_at(seconds: i64) -> (r: String)
    requires
        0 <= seconds,
        in_calendar(seconds as int),
    ensures
        r@ == log_time_text(seconds as int),
        is_log_time(r@),
{
    format_time(seconds, tokyo_offset(seconds), LOG_FORMAT)
}

/// Whether a text is the time of a line in the log, for some time that the clock shows.
pub open spec fn is_log_time_now(text: Seq<char>) -> bool {
    exists|now: int| is_clock(now) && text == #[trigger] log_time_text(now)
}

/// The time of a line in the log now.
pub fn log_time() -> (r: String)
    ensures
        is_log_time_now(r@),
        is_log_time(r@),
{
    let now = now_seconds();
    log_time_at(now)
}

/// Whether a character is a hexadecimal digit in small letters.
pub open spec fn is_hex(c: char) -> bool {
    '0' <= c <= '9' || 'a' <= c <= 'f'
}

/// Whether a text is a UUID of version 7: 36 characters, hexadecimal digits in five groups
/// with hyphens between them, the third of which starts with the version.
pub open spec fn is_uuid_v7(s: Seq<char>) -> bool {
    &&& s.len() == 36
    &&& s[14] == '7'
    &&& forall|i: int|
        0 <= i < 36 ==> if i == 8 || i == 13 || i == 18 || i == 23 {
            #[trigger] s[i] == '-'
        } else {
            is_hex(s[i])
        }
}

/// Calls `uuid::Uuid::now_v7` and its `to_string`: a name that depends on the clock and on
/// chance.
#[verifier::external_body]
pub(crate) fn new_uuid() -> (r: String)
    ensures
        is_uuid_v7(r@),
{
    uuid::Uuid::now_v7().to_string()
}

/// A stamp for some hours later is the stamp at the time that is so many times 3600 seconds
/// later, and the stamp for no hours is that of the time itself.
pub proof fn law_hours_have_3600_seconds(seconds: int, hours: int, more: int, offset: int)
    ensures
        stamp_after(seconds, hours + more, offset) == stamp_after(
            seconds + 3600 * more,
            hours,
            offset,
        ),
        in_calendar(seconds) ==> stamp_after(seconds, 0, offset) == Some(
            time_text(seconds, offset, STAMP_FORMAT@),
        ),
        !in_calendar(seconds) ==> stamp_after(seconds, 0, offset) is None,
        log_time_text(seconds) == time_text(seconds, 9int * 3600, LOG_FORMAT@),
{
}

} // verus!
