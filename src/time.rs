//! Points in time: instants, calendar dates, and their reading on the local clock.

use chrono::{Datelike, TimeZone, Timelike};
use crate::grammar::{is_digit, printable};
use vstd::prelude::*;

verus! {

/// An instant: whole seconds since the Unix epoch and the nanoseconds past them.
#[derive(Clone, Copy, Debug, PartialEq, Eq)]
pub struct Timestamp {
    pub secs: i64,
    pub nanos: u32,
}

impl Timestamp {
    /// The instant on a single scale, in nanoseconds since the epoch.
    pub open spec fn total_nanos(self) -> int {
        self.secs * 1_000_000_000 + self.nanos
    }
}

/// A day of the proleptic Gregorian calendar.
#[derive(Clone, Copy, Debug, PartialEq, Eq)]
pub struct Date {
    pub year: i32,
    pub month: u32,
    pub day: u32,
}

impl Date {
    pub open spec fn wf(self) -> bool {
        1 <= self.month <= 12 && 1 <= self.day <= 31
    }

    /// The following date, unless the year would pass `i32::MAX`.
    pub fn next(&self) -> (r: Option<Date>)
        ensures
            r == date_after(*self),
    {
        let dim = days_in_month_exec(self.year, self.month);
        if self.day < dim {
            Some(Date { year: self.year, month: self.month, day: self.day + 1 })
        } else if self.month < 12 {
            Some(Date { year: self.year, month: self.month + 1, day: 1 })
        } else if self.year < i32::MAX {
            Some(Date { year: self.year + 1, month: 1, day: 1 })
        } else {
            None
        }
    }
}

/// Leap years of the proleptic Gregorian calendar.
pub open spec fn is_leap_year(y: int) -> bool {
    y % 4 == 0 && (y % 100 != 0 || y % 400 == 0)
}

pub open spec fn days_in_month(y: int, m: int) -> int {
    if m == 2 {
        if is_leap_year(y) {
            29
        } else {
            28
        }
    } else if m == 4 || m == 6 || m == 9 || m == 11 {
        30
    } else {
        31
    }
}

/// The date after `d`: the next day of the month, else the first of the next
/// month, else the first of January of the next year.
pub open spec fn date_after(d: Date) -> Option<Date> {
    if (d.day as int) < days_in_month(d.year as int, d.month as int) {
        Some(Date { year: d.year, month: d.month, day: (d.day + 1) as u32 })
    } else if d.month < 12 {
        Some(Date { year: d.year, month: (d.month + 1) as u32, day: 1 })
    } else if d.year < i32::MAX {
        Some(Date { year: (d.year + 1) as i32, month: 1, day: 1 })
    } else {
        None
    }
}

fn leap_year(y: i32) -> (r: bool)
    ensures
        r == is_leap_year(y as int),
{
    // shifting by a multiple of 400 keeps every divisibility the rule asks about
    let u: u64 = (y as i64 + 2_400_000_000) as u64;
    assert(u % 4 == (y as int) % 4 && u % 100 == (y as int) % 100 && u % 400 == (y as int) % 400);
    u % 4 == 0 && (u % 100 != 0 || u % 400 == 0)
}

fn days_in_month_exec(y: i32, m: u32) -> (r: u32)
    ensures
        r == days_in_month(y as int, m as int),
{
    if m == 2 {
        if leap_year(y) {
            29
        } else {
            28
        }
    } else if m == 4 || m == 6 || m == 9 || m == 11 {
        30
    } else {
        31
    }
}

/// An instant together with what the local clock read at it.
#[derive(Clone, Copy, Debug, PartialEq, Eq)]
pub struct LocalTime {
    pub instant: Timestamp,
    pub date: Date,
    pub hour: u32,
    pub minute: u32,
    pub second: u32,
}

/// Seconds on either side of the epoch that chrono's supported years
/// (-262144 to 262143) stay within.
pub const CLOCK_RANGE_SECS: i64 = 10_000_000_000_000;

impl LocalTime {
    pub open spec fn wf(self) -> bool {
        &&& self.date.wf()
        &&& self.hour < 24 && self.minute < 60 && self.second < 60
        &&& -CLOCK_RANGE_SECS <= self.instant.secs <= CLOCK_RANGE_SECS
        &&& self.instant.nanos < 2_000_000_000
    }
}

impl LocalTime {
    /// The same date, hour and minute with another second, if the local
    /// clock reads it exactly once.
    pub fn with_second(&self, second: u32) -> (r: Option<LocalTime>)
        ensures
            r matches Some(t) ==> t.wf() && t.date == self.date && t.hour == self.hour
                && t.minute == self.minute && t.second == second,
    {
        local_instant(self.date, self.hour, self.minute, second)
    }
}

/// A span of time as an interval phrase states it.
#[derive(Clone, Copy, Debug, PartialEq, Eq)]
pub enum Interval {
    Seconds(i32),
    Days(i32),
    Months(i32),
}

/// The length of an interval in seconds; a month counts as thirty days.
pub open spec fn interval_secs(iv: Interval) -> int {
    match iv {
        Interval::Seconds(s) => s as int,
        Interval::Days(d) => d * 86400,
        Interval::Months(m) => m * 30 * 86400,
    }
}

/// The interval that an interval phrase (`15m`, `2 days`, `3 weeks`) states,
/// if it states one.
pub uninterp spec fn interval_of(phrase: Seq<char>) -> Option<Interval>;

#[verifier::external_type_specification]
#[verifier::external_body]
pub struct ExDateError(chrono_english::DateError);

/// Relies on chrono's `Local::now`: the current instant and the local clock's
/// reading of it, which chrono keeps within its supported years.
#[verifier::external_body]
pub(crate) fn now() -> (r: LocalTime)
    ensures
        r.wf(),
{
    let t = chrono::Local::now();
    LocalTime {
        instant: Timestamp { secs: t.timestamp(), nanos: t.timestamp_subsec_nanos() },
        date: Date { year: t.year(), month: t.month(), day: t.day() },
        hour: t.hour(),
        minute: t.minute(),
        second: t.second(),
    }
}

/// Relies on chrono's `TimeZone::from_local_datetime` for `Local`, keeping
/// only a single result: the one instant at which the local clock reads the
/// given date and time. There is none in a gap of the zone, and two in an
/// overlap; either way the answer is `None`.
#[verifier::external_body]
pub(crate) fn local_instant(date: Date, hour: u32, minute: u32, second: u32) -> (r: Option<
    LocalTime,
>)
    ensures
        r matches Some(t) ==> t.wf() && t.date == date && t.hour == hour && t.minute == minute
            && t.second == second,
{
    let day = chrono::NaiveDate::from_ymd_opt(date.year, date.month, date.day)?;
    let t = chrono::Local.from_local_datetime(&day.and_hms_opt(hour, minute, second)?).single()?;
    Some(LocalTime {
        instant: Timestamp { secs: t.timestamp(), nanos: t.timestamp_subsec_nanos() },
        date,
        hour,
        minute,
        second,
    })
}

/// A phrase that the phrase reader takes without fault: printable ASCII,
/// and no number of more than five digits. Longer numbers overflow its
/// arithmetic, and other characters can split its byte slicing.
pub open spec fn readable_phrase(p: Seq<char>) -> bool {
    &&& forall|k: int| 0 <= k < p.len() ==> printable(#[trigger] p[k])
    &&& forall|k: int| 0 <= k && k + 6 <= p.len() ==> #[trigger] breaks_digits(p, k)
}

/// Some character of the six from `k` on is not a digit.
pub open spec fn breaks_digits(p: Seq<char>, k: int) -> bool {
    exists|j: int| k <= j < k + 6 && !is_digit(#[trigger] p[j])
}

/// Whether the phrase reader takes `p` without fault.
pub fn is_readable_phrase(p: &str) -> (r: bool)
    ensures
        r == readable_phrase(p@),
{
    let n = p.unicode_len();
    let mut i: usize = 0;
    let mut run: usize = 0;
    while i < n
        invariant
            i <= n,
            n == p@.len(),
            run <= 5,
            run <= i,
            forall|k: int| 0 <= k < i ==> printable(#[trigger] p@[k]),
            forall|j: int| i - run <= j < i ==> is_digit(#[trigger] p@[j]),
            run < i ==> !is_digit(p@[i - run - 1]),
            forall|k: int| 0 <= k && k + 6 <= i ==> #[trigger] breaks_digits(p@, k),
        decreases n - i,
    {
        let c = p.get_char(i);
        let v = c as u32;
        if v < 32 || v > 126 {
            assert(!printable(p@[i as int]));
            return false;
        }
        if 48 <= v && v <= 57 {
            if run == 5 {
                assert(!readable_phrase(p@)) by {
                    assert(forall|j: int| i - 5 <= j < i + 1 ==> is_digit(#[trigger] p@[j]));
                    let k = i - 5;
                    assert(0 <= k && k + 6 <= p@.len());
                    assert(!breaks_digits(p@, k));
                }
                return false;
            }
            assert forall|k: int| 0 <= k && k + 6 <= i + 1 implies #[trigger] breaks_digits(
                p@,
                k,
            ) by {
                if k + 6 == i + 1 {
                    let j = i - run - 1;
                    assert(k <= j < k + 6 && !is_digit(p@[j]));
                }
            }
            run = run + 1;
        } else {
            assert forall|k: int| 0 <= k && k + 6 <= i + 1 implies #[trigger] breaks_digits(
                p@,
                k,
            ) by {
                if k + 6 == i + 1 {
                    assert(!is_digit(p@[i as int]));
                }
            }
            run = 0;
        }
        i = i + 1;
    }
    true
}

/// Relies on `chrono_english::date_error`: an error of the phrase reader
/// that carries the given description.
#[verifier::external_body]
pub(crate) fn phrase_error(description: &str) -> chrono_english::DateError {
    chrono_english::date_error(description)
}

/// Relies on `chrono_english::parse_date_string`, US dialect, anchored at the
/// current local time (chrono's `Local::now`): the instant that a date or
/// time phrase (`yesterday`, `2022-07-04`, `friday 9am`) names. Only
/// readable phrases are handed to it, on which it does not panic.
#[verifier::external_body]
pub(crate) fn parse_date_phrase(phrase: &str) -> (r: Result<LocalTime, chrono_english::DateError>)
    requires
        readable_phrase(phrase@),
    ensures
        r matches Ok(t) ==> t.wf(),
{
    let d = chrono_english::Dialect::Us;
    let t = chrono_english::parse_date_string(phrase, chrono::Local::now(), d)?;
    Ok(LocalTime {
        instant: Timestamp { secs: t.timestamp(), nanos: t.timestamp_subsec_nanos() },
        date: Date { year: t.year(), month: t.month(), day: t.day() },
        hour: t.hour(),
        minute: t.minute(),
        second: t.second(),
    })
}

/// Relies on `chrono_english::parse_duration`: the interval that a phrase
/// states, which depends on the phrase alone. Only readable phrases are
/// handed to it, on which it does not panic.
#[verifier::external_body]
pub(crate) fn parse_interval(phrase: &str) -> (r: Result<Interval, chrono_english::DateError>)
    requires
        readable_phrase(phrase@),
    ensures
        match r {
            Ok(iv) => interval_of(phrase@) == Some(iv),
            Err(_) => interval_of(phrase@) is None,
        },
{
    match chrono_english::parse_duration(phrase)? {
        chrono_english::Interval::Seconds(s) => Ok(Interval::Seconds(s)),
        chrono_english::Interval::Days(d) => Ok(Interval::Days(d)),
        chrono_english::Interval::Months(m) => Ok(Interval::Months(m)),
    }
}

/// The length of an interval in seconds; a month counts as thirty days.
pub fn interval2duration(interval: Interval) -> (r: i64)
    ensures
        r == interval_secs(interval),
{
    match interval {
        Interval::Seconds(s) => s as i64,
        Interval::Days(d) => d as i64 * 86400,
        Interval::Months(m) => m as i64 * 30 * 86400,
    }
}

} // verus!
