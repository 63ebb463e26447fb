//! Points in time, as notes record them, and their short local-time
//! renderings. The clock and the time zone are chrono's.
use vstd::prelude::*;
use chrono::{Datelike, Timelike};
use crate::chars::push_char;

verus! {

/// A point in time: whole seconds since 1970-01-01 00:00 UTC and the
/// nanoseconds after them (more than a second's worth during a leap
/// second), as `DateTime<Utc>::timestamp` and `timestamp_subsec_nanos`
/// give them.
#[derive(Clone, Copy, Debug, PartialEq, Eq)]
pub struct Timestamp {
    pub secs: i64,
    pub nanos: u32,
}

/// The order of points in time as one integer: seconds first, then
/// nanoseconds.
pub open spec fn ts_key(t: Timestamp) -> int {
    t.secs * 0x1_0000_0000 + t.nanos
}

/// Whether `a` comes strictly after `b`.
pub fn is_later(a: Timestamp, b: Timestamp) -> (r: bool)
    ensures
        r == (ts_key(a) > ts_key(b)),
{
    a.secs > b.secs || (a.secs == b.secs && a.nanos > b.nanos)
}

/// `chrono::Utc::now()`. Nothing is promised of the result: it is the
/// time of the machine.
#[verifier::external_body]
pub(crate) fn now() -> (t: Timestamp) {
    let d = chrono::Utc::now();
    Timestamp { secs: d.timestamp(), nanos: d.timestamp_subsec_nanos() }
}

/// Month, day, hour and minute of a point in time on the local clock.
#[derive(Clone, Copy, Debug)]
pub struct LocalClock {
    pub month: u32,
    pub day: u32,
    pub hour: u32,
    pub minute: u32,
}

/// The ranges chrono documents for these fields.
pub open spec fn clock_valid(c: LocalClock) -> bool {
    1 <= c.month <= 12 && 1 <= c.day <= 31 && c.hour <= 23 && c.minute <= 59
}

/// Times chrono always represents: within about 250,000 years of 1970
/// (its dates reach years -262143 to 262142), with fewer nanoseconds
/// than a second.
pub open spec fn in_clock_range(t: Timestamp) -> bool {
    t.nanos < 1_000_000_000 && -8_000_000_000_000 <= t.secs <= 8_000_000_000_000
}

/// Month, day, hour and minute of the proleptic Gregorian calendar at
/// `secs` seconds after 1970-01-01 00:00 (days to civil date: count
/// from 0000-03-01 in eras of 400 years).
pub open spec fn civil_clock(secs: int) -> LocalClock {
    let days = secs / 86_400;
    let sod = secs % 86_400;
    let z = days + 719_468;
    let era = z / 146_097;
    let doe = z - era * 146_097;
    let yoe = (doe - doe / 1_460 + doe / 36_524 - doe / 146_096) / 365;
    let doy = doe - (365 * yoe + yoe / 4 - yoe / 100);
    let mp = (5 * doy + 2) / 153;
    let day = doy - (153 * mp + 2) / 5 + 1;
    let month = if mp < 10 {
        mp + 3
    } else {
        mp - 9
    };
    LocalClock {
        month: month as u32,
        day: day as u32,
        hour: (sod / 3_600) as u32,
        minute: (sod % 3_600 / 60) as u32,
    }
}

/// A local offset chrono can use: less than a day either way
/// (`FixedOffset::east_opt`).
pub open spec fn local_offset(o: int) -> bool {
    -86_400 < o < 86_400
}

/// `DateTime::from_timestamp` and `with_timezone(&Local)`, then the
/// month, day, hour and minute of the result. None when chrono cannot
/// represent the time, which does not happen in `in_clock_range`. The
/// local time is the time plus the zone's offset, a whole number of
/// seconds under a day either way; which offset depends on the
/// machine's time zone, so only that bound is promised (a leap second
/// keeps its minute). chrono stops with a panic when the system's
/// time-zone data yields no offset for the time; nothing here speaks of
/// that case.
#[verifier::external_body]
fn local_clock(t: Timestamp) -> (r: Option<LocalClock>)
    ensures
        r matches Some(c) ==> clock_valid(c) && exists|o: int|
            local_offset(o) && c == civil_clock(t.secs + o),
        in_clock_range(t) ==> r is Some,
{
    match chrono::DateTime::from_timestamp(t.secs, t.nanos) {
        Some(d) => {
            let l = d.with_timezone(&chrono::Local);
            Some(LocalClock { month: l.month(), day: l.day(), hour: l.hour(), minute: l.minute() })
        },
        None => None,
    }
}

pub open spec fn digit_char(d: nat) -> char {
    if d == 0 {
        '0'
    } else if d == 1 {
        '1'
    } else if d == 2 {
        '2'
    } else if d == 3 {
        '3'
    } else if d == 4 {
        '4'
    } else if d == 5 {
        '5'
    } else if d == 6 {
        '6'
    } else if d == 7 {
        '7'
    } else if d == 8 {
        '8'
    } else {
        '9'
    }
}

/// A number below 100 as two decimal digits (`%m`, `%d`, `%H`, `%M`).
pub open spec fn two_digits(n: nat) -> Seq<char> {
    seq![digit_char(n / 10), digit_char(n % 10)]
}

/// `MM-DD`.
pub open spec fn short_date_of(c: LocalClock) -> Seq<char> {
    two_digits(c.month as nat) + seq!['-'] + two_digits(c.day as nat)
}

/// `HH:MM`.
pub open spec fn time_of(c: LocalClock) -> Seq<char> {
    two_digits(c.hour as nat) + seq![':'] + two_digits(c.minute as nat)
}

/// `MM-DD HH:MM`.
pub open spec fn full_time_of(c: LocalClock) -> Seq<char> {
    short_date_of(c) + seq![' '] + time_of(c)
}

pub(crate) fn digit(d: u32) -> (c: char)
    requires
        d < 10,
    ensures
        c == digit_char(d as nat),
{
    if d == 0 {
        '0'
    } else if d == 1 {
        '1'
    } else if d == 2 {
        '2'
    } else if d == 3 {
        '3'
    } else if d == 4 {
        '4'
    } else if d == 5 {
        '5'
    } else if d == 6 {
        '6'
    } else if d == 7 {
        '7'
    } else if d == 8 {
        '8'
    } else {
        '9'
    }
}

fn push_two_digits(s: &mut String, n: u32)
    requires
        n < 100,
    ensures
        final(s)@ == old(s)@ + two_digits(n as nat),
{
    push_char(s, digit(n / 10));
    push_char(s, digit(n % 10));
    assert(final(s)@ =~= old(s)@ + two_digits(n as nat));
}

/// `%m-%d` of a local clock reading.
pub fn short_date_text(c: LocalClock) -> (r: String)
    requires
        clock_valid(c),
    ensures
        r@ == short_date_of(c),
{
    let mut s = String::new();
    push_two_digits(&mut s, c.month);
    push_char(&mut s, '-');
    push_two_digits(&mut s, c.day);
    assert(s@ =~= short_date_of(c));
    s
}

/// `%H:%M` of a local clock reading.
pub fn time_text(c: LocalClock) -> (r: String)
    requires
        clock_valid(c),
    ensures
        r@ == time_of(c),
{
    let mut s = String::new();
    push_two_digits(&mut s, c.hour);
    push_char(&mut s, ':');
    push_two_digits(&mut s, c.minute);
    assert(s@ =~= time_of(c));
    s
}

/// `%m-%d %H:%M` of a local clock reading.
pub fn full_time_text(c: LocalClock) -> (r: String)
    requires
        clock_valid(c),
    ensures
        r@ == full_time_of(c),
{
    let mut s = short_date_text(c);
    push_char(&mut s, ' ');
    let t = time_text(c);
    s.append(t.as_str());
    assert(s@ =~= full_time_of(c));
    s
}

/// The local date of a point in time as `MM-DD`; none when chrono
/// cannot represent the time (see `in_clock_range`). It is the date at
/// the time plus the machine's zone offset (see `local_clock`).
pub fn format_short_date(value: Timestamp) -> (r: Option<String>)
    ensures
        r matches Some(s) ==> exists|o: int|
            local_offset(o) && s@ == short_date_of(civil_clock(value.secs + o)),
        in_clock_range(value) ==> r is Some,
{
    match local_clock(value) {
        Some(c) => Some(short_date_text(c)),
        None => None,
    }
}

/// The local time of day of a point in time as `HH:MM`.
pub fn format_time(value: Timestamp) -> (r: Option<String>)
    ensures
        r matches Some(s) ==> exists|o: int|
            local_offset(o) && s@ == time_of(civil_clock(value.secs + o)),
        in_clock_range(value) ==> r is Some,
{
    match local_clock(value) {
        Some(c) => Some(time_text(c)),
        None => None,
    }
}

/// The local date and time of a point in time as `MM-DD HH:MM`.
pub fn format_full_time(value: Timestamp) -> (r: Option<String>)
    ensures
        r matches Some(s) ==> exists|o: int|
            local_offset(o) && s@ == full_time_of(civil_clock(value.secs + o)),
        in_clock_range(value) ==> r is Some,
{
    match local_clock(value) {
        Some(c) => Some(full_time_text(c)),
        None => None,
    }
}

} // verus!
