//! Minute-precision timestamps, their Unix time, and their display forms.
use crate::text::{digits_of, padded, push_decimal, push_padded, string_of, append_chars};
use vstd::prelude::*;

verus! {

pub open spec fn is_leap(y: int) -> bool {
    y % 4 == 0 && (y % 100 != 0 || y % 400 == 0)
}

/// Number of days in month `m` (1 to 12) of year `y`.
pub open spec fn days_in_month(y: int, m: int) -> int {
    if m == 2 {
        if is_leap(y) { 29 } else { 28 }
    } else if m == 4 || m == 6 || m == 9 || m == 11 {
        30
    } else {
        31
    }
}

/// Days of year `y` before the first of month `m`.
pub open spec fn days_before_month(y: int, m: int) -> int {
    let common: int = if m == 1 { 0 } else if m == 2 { 31 } else if m == 3 { 59 } else if m == 4 { 90 }
    else if m == 5 { 120 } else if m == 6 { 151 } else if m == 7 { 181 } else if m == 8 { 212 }
    else if m == 9 { 243 } else if m == 10 { 273 } else if m == 11 { 304 } else { 334 };
    if m > 2 && is_leap(y) { common + 1 } else { common }
}

/// The Julian day number of a calendar date, as the `time` crate computes it.
pub open spec fn julian_day(y: int, m: int, d: int) -> int {
    let adj = y + 999_999;
    let century = adj / 100;
    (1461 * adj) / 4 - century + century / 4 + days_before_month(y, m) + d - 363_521_075
}

/// The Julian day number of 1970-01-01.
pub open spec fn unix_epoch_day() -> int {
    2_440_588
}

pub open spec fn month_name(m: int) -> Seq<char> {
    if m == 1 { "January"@ } else if m == 2 { "February"@ } else if m == 3 { "March"@ }
    else if m == 4 { "April"@ } else if m == 5 { "May"@ } else if m == 6 { "June"@ }
    else if m == 7 { "July"@ } else if m == 8 { "August"@ } else if m == 9 { "September"@ }
    else if m == 10 { "October"@ } else if m == 11 { "November"@ } else { "December"@ }
}

/// A moment to the minute, read from a signature, in UTC.
#[derive(Clone, Copy, Debug, PartialEq, Eq)]
pub struct Timestamp {
    pub year: u16,
    pub month: u8,
    pub day: u8,
    pub hour: u8,
    pub minute: u8,
}

impl Timestamp {
    /// A date that exists in the calendar, with a four-digit year, and a time of day.
    pub open spec fn wf(&self) -> bool {
        &&& self.year <= 9999
        &&& 1 <= self.month <= 12
        &&& 1 <= self.day <= days_in_month(self.year as int, self.month as int)
        &&& self.hour < 24
        &&& self.minute < 60
    }

    /// Seconds since 1970-01-01 00:00 UTC.
    pub open spec fn epoch(&self) -> int {
        (julian_day(self.year as int, self.month as int, self.day as int) - unix_epoch_day())
            * 86400 + self.hour * 3600 + self.minute * 60
    }

    /// `HH:MM, D Month YYYY`.
    pub open spec fn text(&self) -> Seq<char> {
        padded(self.hour as nat, 2) + ":"@ + padded(self.minute as nat, 2) + ", "@ + digits_of(
            self.day as nat,
        ) + " "@ + month_name(self.month as int) + " "@ + digits_of(self.year as nat)
    }

    /// The timestamp for the given fields, if they name a real date and time.
    pub fn new(year: u16, month: u8, day: u8, hour: u8, minute: u8) -> (r: Option<Timestamp>)
        ensures
            r matches Some(t) ==> t.wf() && t == (Timestamp { year, month, day, hour, minute }),
            r is None ==> !(Timestamp { year, month, day, hour, minute }).wf(),
    {
        if year > 9999 || month < 1 || month > 12 {
            return None;
        }
        if !calendar_date_exists(year, month, day) || !time_of_day_exists(hour, minute) {
            return None;
        }
        Some(Timestamp { year, month, day, hour, minute })
    }

    /// Seconds since 1970-01-01 00:00 UTC.
    pub fn epoch_secs(&self) -> (r: i64)
        requires
            self.wf(),
        ensures
            r == self.epoch(),
    {
        unix_seconds(self)
    }

    /// The display form `HH:MM, D Month YYYY`.
    pub fn format(&self) -> (r: String)
        requires
            self.wf(),
        ensures
            r@ == self.text(),
    {
        let mut v: Vec<char> = Vec::new();
        push_padded(self.hour as u64, 2, &mut v);
        append_chars(&mut v, &[':']);
        push_padded(self.minute as u64, 2, &mut v);
        append_chars(&mut v, &[',', ' ']);
        push_decimal(self.day as u64, &mut v);
        append_chars(&mut v, &[' ']);
        let name = month_chars(self.month);
        append_chars(&mut v, &name);
        append_chars(&mut v, &[' ']);
        push_decimal(self.year as u64, &mut v);
        proof {
            reveal_strlit(":");
            reveal_strlit(", ");
            reveal_strlit(" ");
        }
        assert(v@ =~= self.text());
        string_of(&v)
    }
}

/// The English name of month `m`.
pub fn month_chars(m: u8) -> (r: Vec<char>)
    requires
        1 <= m <= 12,
    ensures
        r@ == month_name(m as int),
{
    let s = if m == 1 { "January" } else if m == 2 { "February" } else if m == 3 { "March" }
    else if m == 4 { "April" } else if m == 5 { "May" } else if m == 6 { "June" }
    else if m == 7 { "July" } else if m == 8 { "August" } else if m == 9 { "September" }
    else if m == 10 { "October" } else if m == 11 { "November" } else { "December" };
    crate::text::chars_of(s)
}

/// Relies on `time::Date::from_calendar_date`: it accepts exactly the days that the
/// month has (a four-digit year is within its range).
#[verifier::external_body]
fn calendar_date_exists(year: u16, month: u8, day: u8) -> (r: bool)
    requires
        year <= 9999,
        1 <= month <= 12,
    ensures
        r == (1 <= day <= days_in_month(year as int, month as int)),
{
    let month = time::Month::try_from(month).unwrap();
    time::Date::from_calendar_date(year as i32, month, day).is_ok()
}

/// Relies on `time::Time::from_hms`: it accepts hours below 24 and minutes below 60.
#[verifier::external_body]
fn time_of_day_exists(hour: u8, minute: u8) -> (r: bool)
    ensures
        r == (hour < 24 && minute < 60),
{
    time::Time::from_hms(hour, minute, 0).is_ok()
}

/// Relies on `time::PrimitiveDateTime::assume_utc` and `OffsetDateTime::unix_timestamp`:
/// Julian day less that of 1970-01-01, in seconds, plus the time of day.
#[verifier::external_body]
fn unix_seconds(t: &Timestamp) -> (r: i64)
    requires
        t.wf(),
    ensures
        r == t.epoch(),
{
    let month = time::Month::try_from(t.month).unwrap();
    let date = time::Date::from_calendar_date(t.year as i32, month, t.day).unwrap();
    let time = time::Time::from_hms(t.hour, t.minute, 0).unwrap();
    time::PrimitiveDateTime::new(date, time).assume_utc().unix_timestamp()
}

/// Unix times of valid timestamps lie well within `i64`.
pub proof fn lemma_epoch_bounds(t: Timestamp)
    requires
        t.wf(),
    ensures
        -100_000_000_000 <= t.epoch() <= 300_000_000_000,
{
    let adj = t.year + 999_999;
    let century = adj / 100;
    assert(999_999 <= adj <= 1_009_998);
    assert(1461 * 999_999 <= 1461 * adj <= 1461 * 1_009_998) by (nonlinear_arith)
        requires 999_999 <= adj <= 1_009_998;
    assert(9999 <= century <= 10099);
    let j = julian_day(t.year as int, t.month as int, t.day as int);
    assert(1_700_000 <= j <= 5_400_000);
}

/// `H:MM:SS`, preceded by `1 day, ` or `D days, ` when `secs` spans a day or more.
pub open spec fn duration_text(secs: nat) -> Seq<char> {
    let days = secs / 86400;
    let clock = digits_of((secs % 86400) / 3600) + ":"@ + padded((secs % 3600) / 60, 2) + ":"@
        + padded(secs % 60, 2);
    if days == 0 {
        clock
    } else if days == 1 {
        "1 day, "@ + clock
    } else {
        digits_of(days) + " days, "@ + clock
    }
}

/// Formats a duration given in seconds.
pub fn format_duration(secs: u64) -> (r: String)
    ensures
        r@ == duration_text(secs as nat),
{
    let days = secs / 86400;
    let mut v: Vec<char> = Vec::new();
    if days == 1 {
        let one = crate::text::chars_of("1 day, ");
        append_chars(&mut v, &one);
    } else if days >= 2 {
        push_decimal(days, &mut v);
        let unit = crate::text::chars_of(" days, ");
        append_chars(&mut v, &unit);
    }
    push_decimal((secs % 86400) / 3600, &mut v);
    append_chars(&mut v, &[':']);
    push_padded((secs % 3600) / 60, 2, &mut v);
    append_chars(&mut v, &[':']);
    push_padded(secs % 60, 2, &mut v);
    proof {
        reveal_strlit(":");
    }
    assert(v@ =~= duration_text(secs as nat));
    string_of(&v)
}

} // verus!
