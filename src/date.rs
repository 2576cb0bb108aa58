//! Instants in time at one-second resolution, and the UTC calendar day they fall on.

use vstd::prelude::*;

verus! {

/// First second that is no longer representable: 10000-01-01T00:00:00Z.
pub const MAX_SECONDS: i64 = 253402300800;

/// Number of days from 1970-01-01 to 10000-01-01.
pub const MAX_DAYS: i64 = 2932897;

pub const SECONDS_PER_DAY: i64 = 86400;

pub open spec fn is_leap(y: int) -> bool {
    (y % 4 == 0 && y % 100 != 0) || y % 400 == 0
}

pub open spec fn year_len(y: int) -> int {
    if is_leap(y) { 366 } else { 365 }
}

pub open spec fn month_len(y: int, m: int) -> int {
    if m == 2 {
        if is_leap(y) { 29 } else { 28 }
    } else if m == 4 || m == 6 || m == 9 || m == 11 {
        30
    } else {
        31
    }
}

/// Days of year `y` that precede the first of month `m`.
pub open spec fn days_before_month(y: int, m: int) -> int {
    let leap: int = if is_leap(y) { 1 } else { 0 };
    if m <= 1 { 0 }
    else if m == 2 { 31 }
    else if m == 3 { 59 + leap }
    else if m == 4 { 90 + leap }
    else if m == 5 { 120 + leap }
    else if m == 6 { 151 + leap }
    else if m == 7 { 181 + leap }
    else if m == 8 { 212 + leap }
    else if m == 9 { 243 + leap }
    else if m == 10 { 273 + leap }
    else if m == 11 { 304 + leap }
    else { 334 + leap }
}

/// The (year, month, day) reached by walking `d` days forward from the first of month `m`
/// of year `y`.
pub open spec fn civil_in_year(y: int, m: int, d: int) -> (int, int, int)
    decreases 12 - m,
{
    if m >= 12 || d < month_len(y, m) {
        (y, m, d + 1)
    } else {
        civil_in_year(y, m + 1, d - month_len(y, m))
    }
}

/// The (year, month, day) reached by walking `d` days forward from January 1st of year `y`.
pub open spec fn civil_from(y: int, d: int) -> (int, int, int)
    decreases d,
{
    if d < year_len(y) {
        civil_in_year(y, 1, d)
    } else {
        civil_from(y + 1, d - year_len(y))
    }
}

/// The UTC calendar date of the day numbered `days`, counted from 1970-01-01.
pub open spec fn civil_of_day(days: int) -> (int, int, int) {
    civil_from(1970, days)
}

/// The number of the UTC day that second `secs` falls on.
pub open spec fn day_of_second(secs: int) -> int {
    secs / (SECONDS_PER_DAY as int)
}

/// The UTC calendar date, as (year, month, day), of second `secs` since the epoch.
pub open spec fn calendar_date(secs: int) -> (int, int, int) {
    civil_of_day(day_of_second(secs))
}

fn year_length(y: u64) -> (r: u64)
    ensures
        r == year_len(y as int),
{
    if (y % 4 == 0 && y % 100 != 0) || y % 400 == 0 {
        366
    } else {
        365
    }
}

fn month_length(y: u64, m: u64) -> (r: u64)
    ensures
        r == month_len(y as int, m as int),
{
    if m == 2 {
        if (y % 4 == 0 && y % 100 != 0) || y % 400 == 0 {
            29
        } else {
            28
        }
    } else if m == 4 || m == 6 || m == 9 || m == 11 {
        30
    } else {
        31
    }
}

/// Calendar date of a day number.
pub fn civil_date(days: u64) -> (r: (u16, u8, u8))
    requires
        days < MAX_DAYS,
    ensures
        (r.0 as int, r.1 as int, r.2 as int) == civil_of_day(days as int),
        1 <= r.1 <= 12,
        1 <= r.2 <= 31,
{
    let mut y: u64 = 1970;
    let mut d: u64 = days;
    let mut len = year_length(y);
    while d >= len
        invariant
            1970 <= y,
            d <= days,
            days < MAX_DAYS,
            len == year_len(y as int),
            (y - 1970) * 365 <= days - d,
            civil_from(y as int, d as int) == civil_of_day(days as int),
        decreases d,
    {
        d = d - len;
        y = y + 1;
        len = year_length(y);
    }
    assert(y <= 1970 + days / 365) by (nonlinear_arith)
        requires
            (y - 1970) * 365 <= days,
            1970 <= y,
    ;
    let mut m: u64 = 1;
    let mut mlen = month_length(y, m);
    while m < 12 && d >= mlen
        invariant
            1 <= m <= 12,
            mlen == month_len(y as int, m as int),
            d + days_before_month(y as int, m as int) < year_len(y as int),
            civil_in_year(y as int, m as int, d as int) == civil_of_day(days as int),
            y <= 1970 + days / 365,
        decreases 12 - m,
    {
        d = d - mlen;
        m = m + 1;
        mlen = month_length(y, m);
    }
    (y as u16, m as u8, (d + 1) as u8)
}

/// A UTC instant, held as whole seconds since 1970-01-01T00:00:00Z, within the years 1970 to
/// 9999.
#[derive(Clone, Copy, Debug, PartialEq, Eq, Hash, PartialOrd, Ord)]
pub struct StoryDate {
    secs: i64,
}

impl StoryDate {
    #[verifier::type_invariant]
    spec fn in_range(self) -> bool {
        0 <= self.secs < MAX_SECONDS
    }

    /// Seconds since the epoch.
    pub closed spec fn spec_seconds(self) -> int {
        self.secs as int
    }

    /// The earlier of two instants.
    pub open spec fn spec_earliest(a: StoryDate, b: StoryDate) -> StoryDate {
        if a.spec_seconds() <= b.spec_seconds() {
            a
        } else {
            b
        }
    }

    pub fn earliest(a: StoryDate, b: StoryDate) -> (r: StoryDate)
        ensures
            r == StoryDate::spec_earliest(a, b),
    {
        if a.secs <= b.secs {
            a
        } else {
            b
        }
    }

    /// The instant `secs` seconds after the epoch, if it lies in the supported years.
    pub fn from_seconds(secs: i64) -> (r: Option<StoryDate>)
        ensures
            r is Some <==> 0 <= secs < MAX_SECONDS,
            r is Some ==> r->0.spec_seconds() == secs,
    {
        if 0 <= secs && secs < MAX_SECONDS {
            Some(StoryDate { secs })
        } else {
            None
        }
    }

    pub fn seconds(&self) -> (r: i64)
        ensures
            r == self.spec_seconds(),
            0 <= r < MAX_SECONDS,
    {
        proof {
            use_type_invariant(self);
        }
        self.secs
    }

    /// The calendar date of this instant as (year, month, day).
    pub fn ymd(&self) -> (r: (u16, u8, u8))
        ensures
            (r.0 as int, r.1 as int, r.2 as int) == calendar_date(self.spec_seconds()),
            1 <= r.1 <= 12,
            1 <= r.2 <= 31,
    {
        proof {
            use_type_invariant(self);
        }
        let days = (self.secs / SECONDS_PER_DAY) as u64;
        civil_date(days)
    }
}

} // verus!
