//! A point in time as seconds and nanoseconds after the Unix epoch: the
//! plain-value form in which every timestamp of the platform is held.

use vstd::prelude::*;
use crate::text::{decimal, joined, push_str, string_push, u32_to_decimal};

verus! {

pub const NANOS_PER_SEC: u32 = 1_000_000_000;

pub const NANOS_PER_MILLI: u32 = 1_000_000;

pub const MILLIS_PER_SEC: u64 = 1000;

/// A point in time after the Unix epoch.
#[derive(Clone, Copy, Debug, PartialEq, Eq, Structural)]
pub struct Time {
    pub secs: u64,
    pub nanos: u32,
}

impl Time {
    /// The nanosecond part is below one second, and the seconds fit the
    /// range of the system clock.
    pub open spec fn wf(self) -> bool {
        &&& self.nanos < NANOS_PER_SEC
        &&& self.secs <= i64::MAX
    }

    /// Nanoseconds since the epoch.
    pub open spec fn total_nanos(self) -> int {
        self.secs * NANOS_PER_SEC + self.nanos
    }

    /// The Unix epoch itself.
    pub fn epoch() -> (t: Time)
        ensures
            t.secs == 0,
            t.nanos == 0,
            t.wf(),
    {
        Time { secs: 0, nanos: 0 }
    }
}

/// The time `millis` milliseconds after the epoch, where the count is first
/// reinterpreted as unsigned (a negative count wraps around).
pub open spec fn spec_time_from_millis(millis: i64) -> Time {
    let m = millis as u64;
    Time { secs: m / MILLIS_PER_SEC, nanos: ((m % MILLIS_PER_SEC) * NANOS_PER_MILLI as int) as u32 }
}

/// Builds the time that lies `millis` milliseconds after the epoch.
pub fn time_from_millis(millis: i64) -> (t: Time)
    ensures
        t == spec_time_from_millis(millis),
        t.wf(),
{
    let m: u64 = millis as u64;
    let rest: u32 = (m % MILLIS_PER_SEC) as u32;
    assert(rest < 1000);
    assert(m / MILLIS_PER_SEC <= i64::MAX);
    Time { secs: m / MILLIS_PER_SEC, nanos: rest * NANOS_PER_MILLI }
}

/// The time `secs` seconds after `t`.
pub open spec fn spec_after_secs(t: Time, secs: u64) -> Time {
    Time { secs: (t.secs + secs) as u64, nanos: t.nanos }
}

/// The time `secs` seconds after `now`, which must stay in the range of the
/// system clock.
pub fn expires_at(now: Time, secs: u64) -> (t: Time)
    requires
        now.wf(),
        now.secs + secs <= i64::MAX,
    ensures
        t == spec_after_secs(now, secs),
        t.wf(),
{
    Time { secs: now.secs + secs, nanos: now.nanos }
}

/// A date and time without an offset, as a database column holds it: the
/// year, the month (1 to 12), the day of the month, the hour, the minute, the
/// second and the nanoseconds within that second.
#[derive(Clone, Copy, Debug, PartialEq, Eq, Structural)]
pub struct DateTimeParts {
    pub year: i32,
    pub month: u32,
    pub day: u32,
    pub hour: u32,
    pub minute: u32,
    pub second: u32,
    pub nano: u32,
}

/// The number of milliseconds from the epoch to the given date and time,
/// taken as UTC, as chrono counts it (`NaiveDate::from_ymd_opt`, then
/// `and_hms_nano_opt`, then `and_utc().timestamp_millis()`); `None` where
/// chrono holds the parts to name no valid date and time.
pub uninterp spec fn utc_millis(year: i32, month: u32, day: u32, hour: u32, minute: u32, second: u32, nano: u32) -> Option<i64>;

/// Builds chrono's `NaiveDateTime` from the parts (`NaiveDate::from_ymd_opt`
/// and `NaiveDate::and_hms_nano_opt`) and gives its millisecond count since
/// the epoch as UTC (`and_utc().timestamp_millis()`). Claimed: the result is
/// `utc_millis` of the parts.
#[verifier::external_body]
fn naive_utc_millis(year: i32, month: u32, day: u32, hour: u32, minute: u32, second: u32, nano: u32) -> (r: Option<i64>)
    ensures
        r == utc_millis(year, month, day, hour, minute, second, nano),
{
    match chrono::NaiveDate::from_ymd_opt(year, month, day) {
        Some(date) => match date.and_hms_nano_opt(hour, minute, second, nano) {
            Some(dt) => Some(dt.and_utc().timestamp_millis()),
            None => None,
        },
        None => None,
    }
}

/// The time of a date and time read from the database: its millisecond count
/// since the epoch (the date and time taken as UTC), reinterpreted as
/// unsigned, after the epoch; `None` where the parts name no valid date and
/// time.
pub fn chrono2sys(c: DateTimeParts) -> (r: Option<Time>)
    ensures
        match utc_millis(c.year, c.month, c.day, c.hour, c.minute, c.second, c.nano) {
            Some(m) => r == Some(spec_time_from_millis(m)),
            None => r is None,
        },
        r matches Some(t) ==> t.wf(),
{
    match naive_utc_millis(c.year, c.month, c.day, c.hour, c.minute, c.second, c.nano) {
        Some(m) => Some(time_from_millis(m)),
        None => None,
    }
}

/// `n` in decimal, with zeros in front up to `width` digits.
pub open spec fn zero_padded(n: nat, width: nat) -> Seq<char> {
    let d = decimal(n);
    if d.len() < width {
        Seq::new((width - d.len()) as nat, |_i: int| '0') + d
    } else {
        d
    }
}

/// The year as chrono's `%Y` writes it: four digits at least, zero-padded,
/// with a sign in front of a year outside 0 to 9999.
pub open spec fn year_text(year: i32) -> Seq<char> {
    if 0 <= year <= 9999 {
        zero_padded(year as nat, 4)
    } else if year < 0 {
        seq!['-'] + zero_padded((-year) as nat, 4)
    } else {
        seq!['+'] + zero_padded(year as nat, 4)
    }
}

/// The text of a date and time to the minute in the form `%Y-%m-%dT%H:%M`
/// that a `datetime-local` field takes, each part after the year in two
/// digits at least.
pub open spec fn spec_time_fmt(t: DateTimeParts) -> Seq<char> {
    year_text(t.year) + "-"@ + zero_padded(t.month as nat, 2) + "-"@ + zero_padded(t.day as nat, 2) + "T"@
        + zero_padded(t.hour as nat, 2) + ":"@ + zero_padded(t.minute as nat, 2)
}

/// Appends `n` in decimal, zero-padded to `width` digits.
fn push_zero_padded(s: &mut String, n: u32, width: usize)
    ensures
        final(s)@ == old(s)@ + zero_padded(n as nat, width as nat),
{
    let d = u32_to_decimal(n);
    let len = d.as_str().unicode_len();
    let ghost start = s@;
    if len < width {
        let zeros: usize = width - len;
        let mut i: usize = 0;
        while i < zeros
            invariant
                i <= zeros,
                s@ == start + Seq::new(i as nat, |_i: int| '0'),
            decreases zeros - i,
        {
            string_push(s, '0');
            assert(s@ =~= start + Seq::new((i + 1) as nat, |_i: int| '0'));
            i = i + 1;
        }
    }
    push_str(s, d.as_str());
    assert(s@ =~= start + zero_padded(n as nat, width as nat));
}

/// Writes a date and time to the minute as `%Y-%m-%dT%H:%M`, the value that
/// a `datetime-local` form field takes.
pub fn time_fmt(t: DateTimeParts) -> (r: String)
    ensures
        r@ == spec_time_fmt(t),
{
    let mut r = String::new();
    if 0 <= t.year && t.year <= 9999 {
        push_zero_padded(&mut r, t.year as u32, 4);
    } else if t.year < 0 {
        string_push(&mut r, '-');
        let a: i64 = -(t.year as i64);
        push_zero_padded(&mut r, a as u32, 4);
    } else {
        string_push(&mut r, '+');
        push_zero_padded(&mut r, t.year as u32, 4);
    }
    assert(r@ =~= year_text(t.year));
    push_str(&mut r, "-");
    push_zero_padded(&mut r, t.month, 2);
    push_str(&mut r, "-");
    push_zero_padded(&mut r, t.day, 2);
    push_str(&mut r, "T");
    push_zero_padded(&mut r, t.hour, 2);
    push_str(&mut r, ":");
    push_zero_padded(&mut r, t.minute, 2);
    proof {
        reveal_strlit("-");
        reveal_strlit("T");
        reveal_strlit(":");
    }
    assert(r@ =~= spec_time_fmt(t));
    r
}

/// The instant, in milliseconds since the epoch, that chrono's
/// `DateTime::parse_from_str` reads from `text` with the format `fmt`;
/// `None` where the text does not match the format or names no valid time.
pub uninterp spec fn parsed_instant_millis(text: Seq<char>, fmt: Seq<char>) -> Option<i64>;

/// Calls chrono's `DateTime::parse_from_str` and gives the millisecond count
/// of the instant it read. Claimed: the result is `parsed_instant_millis`.
#[verifier::external_body]
fn parse_instant_millis(text: &str, fmt: &str) -> (r: Option<i64>)
    ensures
        r == parsed_instant_millis(text@, fmt@),
{
    match chrono::DateTime::parse_from_str(text, fmt) {
        Ok(d) => Some(d.timestamp_millis()),
        Err(_) => None,
    }
}

/// The format in which a form's date and time, completed to the second and
/// with an offset, is read.
pub open spec fn form_time_format() -> Seq<char> {
    "%Y-%m-%dT%H:%M:%S %z"@
}

/// The time a `datetime-local` form field (`YYYY-MM-DDTHH:MM`) holds, read
/// as China time (UTC+8); `None` where the field holds no such time.
pub fn form_time(field: &str) -> (r: Option<Time>)
    ensures
        match parsed_instant_millis(field@ + ":00 +0800"@, form_time_format()) {
            Some(m) => r == Some(spec_time_from_millis(m)),
            None => r is None,
        },
{
    let text = joined(field, ":00 +0800");
    match parse_instant_millis(text.as_str(), "%Y-%m-%dT%H:%M:%S %z") {
        Some(m) => Some(time_from_millis(m)),
        None => None,
    }
}

} // verus!
