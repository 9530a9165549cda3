//! Instants in UTC, held as plain integers, and the calls into `chrono` that
//! produce or shift them.
use vstd::prelude::*;

verus! {

/// An instant in UTC: whole seconds since the Unix epoch (`secs`) and the
/// nanoseconds past that second (`nanos`), as `chrono::DateTime<Utc>` reports
/// them through `timestamp()` and `timestamp_subsec_nanos()`. During a leap
/// second `nanos` may exceed 999,999,999.
#[derive(Clone, Copy, Debug, PartialEq, Eq, Structural)]
pub struct Stamp {
    pub secs: i64,
    pub nanos: u32,
}

impl Stamp {
    /// `self` comes strictly before `other`: the order of `DateTime<Utc>`,
    /// which is the lexicographic order of (seconds, nanoseconds).
    pub open spec fn before(self, other: Stamp) -> bool {
        self.secs < other.secs || (self.secs == other.secs && self.nanos < other.nanos)
    }

    /// `self` comes before `other` or is the same instant.
    pub open spec fn not_after(self, other: Stamp) -> bool {
        self.before(other) || self == other
    }

    /// Whether `self` comes strictly before `other`.
    pub fn is_before(&self, other: &Stamp) -> (r: bool)
        ensures
            r == self.before(*other),
    {
        self.secs < other.secs || (self.secs == other.secs && self.nanos < other.nanos)
    }

    /// Whether `self` comes before `other` or is the same instant.
    pub fn is_not_after(&self, other: &Stamp) -> (r: bool)
        ensures
            r == self.not_after(*other),
    {
        self.secs < other.secs || (self.secs == other.secs && self.nanos <= other.nanos)
    }
}

/// The first second `chrono` can hold: -262143-01-01T00:00:00Z
/// (`NaiveDate::MIN`).
pub open spec fn first_second() -> int {
    -8_334_601_228_800
}

/// The last second `chrono` can hold: +262142-12-31T23:59:59Z
/// (`NaiveDate::MAX`).
pub open spec fn last_second() -> int {
    8_210_266_876_799
}

/// `chrono` can hold the instant: its second lies in the range of
/// `NaiveDate`, and its nanoseconds are below one second, or below two in
/// the last second of a minute (a leap second), as
/// `NaiveTime::from_num_seconds_from_midnight_opt` requires.
pub open spec fn chrono_holds(s: Stamp) -> bool {
    &&& first_second() <= s.secs <= last_second()
    &&& (s.nanos < 1_000_000_000 || (s.nanos < 2_000_000_000 && s.secs % 60 == 59))
}

/// What the clock can read: an instant `chrono` holds, not before the Unix
/// epoch, and not inside a leap second.
pub open spec fn is_clock_reading(s: Stamp) -> bool {
    &&& chrono_holds(s)
    &&& s.secs >= 0
    &&& s.nanos < 1_000_000_000
}

/// `at` moved `minutes` later, as `chrono` counts: `None` where `chrono`
/// cannot hold `at` or the shifted second falls past its last date. The
/// seconds move by `60 * minutes`; a positive shift out of a leap second
/// drops the extra second from the nanoseconds, and a zero shift keeps the
/// instant as it is.
pub open spec fn minutes_later(at: Stamp, minutes: u32) -> Option<Stamp> {
    if chrono_holds(at) && at.secs + 60 * minutes <= last_second() {
        Some(
            Stamp {
                secs: (at.secs + 60 * minutes) as i64,
                nanos: if minutes == 0 {
                    at.nanos
                } else {
                    (at.nanos % 1_000_000_000) as u32
                },
            },
        )
    } else {
        None
    }
}

/// The current instant, from `chrono::Utc::now()`.
///
/// Trusted: the result depends on the clock. As the source shows (it reads
/// the system time after the Unix epoch, with whole seconds and the
/// nanoseconds below one second, and builds a `DateTime` from them), it is
/// claimed only that the instant is one the clock can read.
#[verifier::external_body]
pub fn now() -> (r: Stamp)
    ensures
        is_clock_reading(r),
{
    let t = chrono::Utc::now();
    Stamp { secs: t.timestamp(), nanos: t.timestamp_subsec_nanos() }
}

/// `at` moved `minutes` later, through `chrono`: `DateTime::from_timestamp`,
/// then `checked_add_signed` with `TimeDelta::minutes`.
///
/// Trusted: the result is claimed to be `minutes_later(at, minutes)`. The
/// source shows it: `from_timestamp` and
/// `NaiveTime::from_num_seconds_from_midnight_opt` accept exactly the
/// instants of `chrono_holds`; `NaiveTime::overflowing_add_signed` adds
/// `60 * minutes` seconds, leaving a leap second when the shift is positive
/// and keeping the time when it is zero; `NaiveDate::checked_add_signed`
/// fails exactly past the last date.
#[verifier::external_body]
pub fn add_minutes(at: Stamp, minutes: u32) -> (r: Option<Stamp>)
    ensures
        r == minutes_later(at, minutes),
{
    let start = chrono::DateTime::from_timestamp(at.secs, at.nanos)?;
    let end = start.checked_add_signed(chrono::TimeDelta::minutes(minutes as i64))?;
    Some(Stamp { secs: end.timestamp(), nanos: end.timestamp_subsec_nanos() })
}

} // verus!
