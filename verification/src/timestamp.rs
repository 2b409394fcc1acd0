//! Civil timestamps with a fixed UTC offset, and their conversion to an
//! absolute second count.
//!
//! A timestamp is a local calendar date and time of day together with the
//! UTC offset it was recorded in, mirroring the `YYYY-MM-DD HH:MM:SS +HHMM`
//! form in which the ledger stores times.  All duration arithmetic goes
//! through [`Timestamp::instant_seconds`], the number of seconds since the
//! start of year 1 in UTC, so differences are well defined even across
//! offset changes.

use vstd::prelude::*;

verus! {

/// A civil date and time with a fixed UTC offset.
///
/// `offset_minutes` is the signed offset from UTC in minutes; a timestamp
/// recorded at `+0200` carries `offset_minutes == 120`.
#[derive(Clone, Copy, Debug, PartialEq, Eq, Structural)]
pub struct Timestamp {
    pub year: u32,
    pub month: u32,
    pub day: u32,
    pub hour: u32,
    pub minute: u32,
    pub second: u32,
    pub offset_minutes: i32,
}

/// Whether `y` is a leap year in the proleptic Gregorian calendar.
pub open spec fn is_leap_year(y: int) -> bool {
    (y % 4 == 0 && y % 100 != 0) || y % 400 == 0
}

/// Number of days in month `m` of year `y` (months are 1-based).
pub open spec fn days_in_month(y: int, m: int) -> int {
    if m == 2 {
        if is_leap_year(y) {
            29
        } else {
            28
        }
    } else if m == 4 || m == 6 || m == 9 || m == 11 {
        30
    } else {
        31
    }
}

/// Number of days in year `y` that precede the first day of month `m`.
pub open spec fn days_before_month(y: int, m: int) -> int {
    let leap: int = if is_leap_year(y) {
        1
    } else {
        0
    };
    if m == 1 {
        0
    } else if m == 2 {
        31
    } else if m == 3 {
        59 + leap
    } else if m == 4 {
        90 + leap
    } else if m == 5 {
        120 + leap
    } else if m == 6 {
        151 + leap
    } else if m == 7 {
        181 + leap
    } else if m == 8 {
        212 + leap
    } else if m == 9 {
        243 + leap
    } else if m == 10 {
        273 + leap
    } else if m == 11 {
        304 + leap
    } else {
        334 + leap
    }
}

/// Number of days that precede January 1 of year `y`, counting from
/// January 1 of year 1 (so `days_before_year(1) == 0`).
pub open spec fn days_before_year(y: int) -> int {
    365 * (y - 1) + (y - 1) / 4 - (y - 1) / 100 + (y - 1) / 400
}

impl Timestamp {
    /// The calendar fields are in range and the date exists.
    pub open spec fn valid(self) -> bool {
        &&& 1 <= self.year <= 9999
        &&& 1 <= self.month <= 12
        &&& 1 <= self.day <= days_in_month(self.year as int, self.month as int)
        &&& self.hour <= 23
        &&& self.minute <= 59
        &&& self.second <= 59
        &&& -1439 <= self.offset_minutes <= 1439
    }

    /// Days since January 1 of year 1 (that day itself is index 0).
    pub open spec fn day_index(self) -> int {
        days_before_year(self.year as int) + days_before_month(
            self.year as int,
            self.month as int,
        ) + self.day - 1
    }

    /// Seconds since 0001-01-01 00:00:00 UTC, the offset accounted for.
    pub open spec fn instant(self) -> int {
        self.day_index() * 86400 + self.hour * 3600 + self.minute * 60 + self.second
            - self.offset_minutes * 60
    }

    /// Computes [`Timestamp::instant`] executably.
    pub fn instant_seconds(&self) -> (r: i64)
        requires
            self.valid(),
        ensures
            r == self.instant(),
            -100000 <= r < 320000000000i64,
    {
        let y: i64 = self.year as i64;
        let before_year: i64 = 365 * (y - 1) + (y - 1) / 4 - (y - 1) / 100 + (y - 1) / 400;
        let leap: i64 = if (self.year % 4 == 0 && self.year % 100 != 0) || self.year % 400 == 0 {
            1
        } else {
            0
        };
        let before_month: i64 = match self.month {
            1 => 0,
            2 => 31,
            3 => 59 + leap,
            4 => 90 + leap,
            5 => 120 + leap,
            6 => 151 + leap,
            7 => 181 + leap,
            8 => 212 + leap,
            9 => 243 + leap,
            10 => 273 + leap,
            11 => 304 + leap,
            _ => 334 + leap,
        };
        let days: i64 = before_year + before_month + self.day as i64 - 1;
        let civil: i64 = days * 86400 + self.hour as i64 * 3600 + self.minute as i64 * 60
            + self.second as i64;
        civil - self.offset_minutes as i64 * 60
    }
}

/// The difference `b - a` in seconds between two instants.
pub open spec fn diff_seconds(a: Timestamp, b: Timestamp) -> int {
    b.instant() - a.instant()
}

} // verus!
