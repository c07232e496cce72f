//! Calendar primitives: dates as proleptic Gregorian day numbers, weekly
//! recurrence masks, service validity patterns and date-specific exceptions.

use vstd::prelude::*;

verus! {

/// Weekday mask bits, one independent flag per weekday.
pub const NEVER: u8 = 0;
pub const MONDAY: u8 = 1;
pub const TUESDAY: u8 = 2;
pub const WEDNESDAY: u8 = 4;
pub const THURSDAY: u8 = 8;
pub const FRIDAY: u8 = 16;
pub const SATURDAY: u8 = 32;
pub const SUNDAY: u8 = 64;
/// Monday through Friday.
pub const WORKDAYS: u8 = 31;
/// Saturday and Sunday.
pub const WEEKENDS: u8 = 96;

/// Day number of 9999-12-31, the last date this library represents.
pub const MAX_DAY_NUMBER: u32 = 3652059;

/// A calendar date, stored as its proleptic Gregorian day number:
/// day 1 is January 1 of year 1 (a Monday).
#[derive(Clone, Copy, PartialEq, Eq, Structural, Debug)]
pub struct Date {
    pub days: u32,
}

impl Date {
    /// A representable date: day numbers from year 1 through year 9999.
    pub open spec fn wf(self) -> bool {
        1 <= self.days <= MAX_DAY_NUMBER
    }

    /// The day number, for interoperation with calendar libraries that use
    /// the same "days from common era" convention.
    pub fn day_number(&self) -> (r: u32)
        ensures
            r == self.days,
    {
        self.days
    }
}

pub open spec fn spec_is_leap_year(y: int) -> bool {
    y % 4 == 0 && (y % 100 != 0 || y % 400 == 0)
}

/// Days strictly before January 1 of year `y`, counted from day 0.
pub open spec fn spec_days_before_year(y: int) -> int {
    365 * (y - 1) + (y - 1) / 4 - (y - 1) / 100 + (y - 1) / 400
}

pub open spec fn spec_days_in_month(y: int, m: int) -> int {
    if m == 2 {
        if spec_is_leap_year(y) {
            29
        } else {
            28
        }
    } else if m == 4 || m == 6 || m == 9 || m == 11 {
        30
    } else {
        31
    }
}

/// Days of year `y` strictly before the first day of month `m`.
pub open spec fn spec_days_before_month(y: int, m: int) -> int {
    let base: int = if m == 1 {
        0
    } else if m == 2 {
        31
    } else if m == 3 {
        59
    } else if m == 4 {
        90
    } else if m == 5 {
        120
    } else if m == 6 {
        151
    } else if m == 7 {
        181
    } else if m == 8 {
        212
    } else if m == 9 {
        243
    } else if m == 10 {
        273
    } else if m == 11 {
        304
    } else {
        334
    };
    let leap_shift: int = if m >= 3 && spec_is_leap_year(y) {
        1
    } else {
        0
    };
    base + leap_shift
}

pub open spec fn spec_day_number(y: int, m: int, d: int) -> int {
    spec_days_before_year(y) + spec_days_before_month(y, m) + d
}

pub open spec fn valid_ymd(y: int, m: int, d: int) -> bool {
    1 <= y <= 9999 && 1 <= m <= 12 && 1 <= d <= spec_days_in_month(y, m)
}

pub open spec fn spec_days_in_year(y: int) -> int {
    if spec_is_leap_year(y) {
        366
    } else {
        365
    }
}

pub open spec fn valid_yo(y: int, o: int) -> bool {
    1 <= y <= 9999 && 1 <= o <= spec_days_in_year(y)
}

/// Weekday index of a date: 0 is Monday, ..., 6 is Sunday.
pub open spec fn weekday_of(d: Date) -> int {
    (d.days - 1) % 7
}

/// Whether the mask flag for weekday index `w` is set.
pub open spec fn weekday_allows(flags: u8, w: int) -> bool {
    if w == 0 {
        flags & MONDAY != 0
    } else if w == 1 {
        flags & TUESDAY != 0
    } else if w == 2 {
        flags & WEDNESDAY != 0
    } else if w == 3 {
        flags & THURSDAY != 0
    } else if w == 4 {
        flags & FRIDAY != 0
    } else if w == 5 {
        flags & SATURDAY != 0
    } else {
        flags & SUNDAY != 0
    }
}

fn is_leap_year(y: u32) -> (r: bool)
    ensures
        r == spec_is_leap_year(y as int),
{
    y % 4 == 0 && (y % 100 != 0 || y % 400 == 0)
}

fn days_in_month(y: u32, m: u32) -> (r: u32)
    requires
        1 <= m <= 12,
    ensures
        r == spec_days_in_month(y as int, m as int),
{
    if m == 2 {
        if is_leap_year(y) {
            29
        } else {
            28
        }
    } else if m == 4 || m == 6 || m == 9 || m == 11 {
        30
    } else {
        31
    }
}

fn days_before_year(y: u32) -> (r: u32)
    requires
        1 <= y <= 9999,
    ensures
        r == spec_days_before_year(y as int),
        r <= 3651694,
{
    let y1 = y - 1;
    assert(y1 / 4 <= 2499 && y1 / 100 <= 99 && y1 / 400 <= 24) by (nonlinear_arith)
        requires
            y1 <= 9998,
    ;
    365 * y1 + y1 / 4 - y1 / 100 + y1 / 400
}

fn days_before_month(y: u32, m: u32) -> (r: u32)
    requires
        1 <= m <= 12,
    ensures
        r == spec_days_before_month(y as int, m as int),
        r <= 335,
{
    let base: u32 = if m == 1 {
        0
    } else if m == 2 {
        31
    } else if m == 3 {
        59
    } else if m == 4 {
        90
    } else if m == 5 {
        120
    } else if m == 6 {
        151
    } else if m == 7 {
        181
    } else if m == 8 {
        212
    } else if m == 9 {
        243
    } else if m == 10 {
        273
    } else if m == 11 {
        304
    } else {
        334
    };
    if m >= 3 && is_leap_year(y) {
        base + 1
    } else {
        base
    }
}

impl Date {
    /// The date of the given year, month and day, or `None` when the triple
    /// is not a real calendar date (or lies outside years 1 through 9999).
    pub fn from_ymd(year: u32, month: u32, day: u32) -> (r: Option<Date>)
        ensures
            r is Some <==> valid_ymd(year as int, month as int, day as int),
            r matches Some(d) ==> d.days == spec_day_number(year as int, month as int, day as int)
                && d.wf(),
    {
        if year < 1 || year > 9999 || month < 1 || month > 12 {
            return None;
        }
        if day < 1 || day > days_in_month(year, month) {
            return None;
        }
        let days = days_before_year(year) + days_before_month(year, month) + day;
        Some(Date { days })
    }

    /// The date of the given year and ordinal day of year (1-based), or
    /// `None` when the ordinal does not exist in that year.
    pub fn from_yo(year: u32, ordinal: u32) -> (r: Option<Date>)
        ensures
            r is Some <==> valid_yo(year as int, ordinal as int),
            r matches Some(d) ==> d.days == spec_days_before_year(year as int) + ordinal && d.wf(),
    {
        if year < 1 || year > 9999 {
            return None;
        }
        let in_year: u32 = if is_leap_year(year) {
            366
        } else {
            365
        };
        if ordinal < 1 || ordinal > in_year {
            return None;
        }
        let days = days_before_year(year) + ordinal;
        Some(Date { days })
    }

    /// Weekday index of this date: 0 is Monday, ..., 6 is Sunday.
    pub fn weekday(&self) -> (w: u8)
        requires
            self.wf(),
        ensures
            w == weekday_of(*self),
            w < 7,
    {
        ((self.days - 1) % 7) as u8
    }
}

/// Whether a weekly recurrence mask selects the weekday of `date`.
pub fn runs_on_date(date: &Date, flags: u8) -> (r: bool)
    requires
        date.wf(),
    ensures
        r == weekday_allows(flags, weekday_of(*date)),
{
    let w = date.weekday();
    if w == 0 {
        flags & MONDAY != 0
    } else if w == 1 {
        flags & TUESDAY != 0
    } else if w == 2 {
        flags & WEDNESDAY != 0
    } else if w == 3 {
        flags & THURSDAY != 0
    } else if w == 4 {
        flags & FRIDAY != 0
    } else if w == 5 {
        flags & SATURDAY != 0
    } else {
        flags & SUNDAY != 0
    }
}

/// The mask selecting exactly the given weekdays: how a recurrence rule
/// written as seven independent flags becomes one mask.
pub fn weekday_mask(
    monday: bool,
    tuesday: bool,
    wednesday: bool,
    thursday: bool,
    friday: bool,
    saturday: bool,
    sunday: bool,
) -> (r: u8)
    ensures
        weekday_allows(r, 0) == monday,
        weekday_allows(r, 1) == tuesday,
        weekday_allows(r, 2) == wednesday,
        weekday_allows(r, 3) == thursday,
        weekday_allows(r, 4) == friday,
        weekday_allows(r, 5) == saturday,
        weekday_allows(r, 6) == sunday,
{
    let m0: u8 = if monday {
        1
    } else {
        0
    };
    let m1: u8 = if tuesday {
        2
    } else {
        0
    };
    let m2: u8 = if wednesday {
        4
    } else {
        0
    };
    let m3: u8 = if thursday {
        8
    } else {
        0
    };
    let m4: u8 = if friday {
        16
    } else {
        0
    };
    let m5: u8 = if saturday {
        32
    } else {
        0
    };
    let m6: u8 = if sunday {
        64
    } else {
        0
    };
    let mask = m0 | m1 | m2 | m3 | m4 | m5 | m6;
    proof {
        let bv = m0 | m1 | m2 | m3 | m4 | m5 | m6;
        assert(bv & 1 == m0 && bv & 2 == m1 && bv & 4 == m2 && bv & 8 == m3 && bv & 16 == m4
            && bv & 32 == m5 && bv & 64 == m6) by (bit_vector)
            requires
                m0 == 0 || m0 == 1,
                m1 == 0 || m1 == 2,
                m2 == 0 || m2 == 4,
                m3 == 0 || m3 == 8,
                m4 == 0 || m4 == 16,
                m5 == 0 || m5 == 32,
                m6 == 0 || m6 == 64,
                bv == m0 | m1 | m2 | m3 | m4 | m5 | m6,
        ;
    }
    mask
}

/// A weekly recurrence rule with its validity interval, both ends inclusive.
#[derive(Clone, Copy, PartialEq, Eq, Structural, Debug)]
pub struct ServicePattern {
    pub weekdays: u8,
    pub start_date: Date,
    pub end_date: Date,
}

/// Whether the pattern makes its service run on `d`: the date lies in the
/// validity interval and the weekday flag is set.
pub open spec fn pattern_allows(p: ServicePattern, d: Date) -> bool {
    p.start_date.days <= d.days <= p.end_date.days && weekday_allows(p.weekdays, weekday_of(d))
}

impl ServicePattern {
    /// Whether this pattern makes its service run on `d`.
    pub fn allows(&self, d: &Date) -> (r: bool)
        requires
            d.wf(),
        ensures
            r == pattern_allows(*self, *d),
    {
        self.start_date.days <= d.days && d.days <= self.end_date.days && runs_on_date(
            d,
            self.weekdays,
        )
    }
}

/// A date-specific override of whether a service runs.
#[derive(Clone, Copy, PartialEq, Eq, Structural, Debug)]
pub enum Exception {
    Added,
    Deleted,
}

/// One exception record: the override kind for one date.
#[derive(Clone, Copy, PartialEq, Eq, Structural, Debug)]
pub struct ServiceException {
    pub date: Date,
    pub exception_type: Exception,
}

} // verus!
