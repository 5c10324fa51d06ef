//! Calendar dates as plain year/month/day values, with the month arithmetic
//! the fee and import engines need: alignment to the first of the month,
//! stepping month by month, and counting whole months between dates.

use vstd::prelude::*;

verus! {

/// A calendar date. `year` is the full year (at most 9999), `month` runs
/// from 1 to 12 and `day` from 1 to the length of the month.
#[derive(Clone, Copy, Debug, PartialEq, Eq, Hash, Structural)]
pub struct Date {
    pub year: u16,
    pub month: u8,
    pub day: u8,
}

/// Largest year a `Date` may carry.
pub const MAX_YEAR: u16 = 9999;

/// Whether the year is a leap year in the Gregorian calendar.
pub open spec fn spec_is_leap_year(year: int) -> bool {
    (year % 4 == 0 && year % 100 != 0) || year % 400 == 0
}

/// How many days the given month of the given year has.
pub open spec fn spec_days_in_month(year: int, month: int) -> int {
    if month == 2 {
        if spec_is_leap_year(year) {
            29
        } else {
            28
        }
    } else if month == 4 || month == 6 || month == 9 || month == 11 {
        30
    } else {
        31
    }
}

impl Date {
    /// A well-formed calendar date.
    pub open spec fn valid(self) -> bool {
        &&& 1 <= self.year <= MAX_YEAR
        &&& 1 <= self.month <= 12
        &&& 1 <= self.day <= spec_days_in_month(self.year as int, self.month as int)
    }

    /// The month of this date, counted in whole months from year 0.
    pub open spec fn month_index(self) -> int {
        self.year * 12 + self.month - 1
    }

    /// Lexicographic order on (year, month, day).
    pub open spec fn spec_le(self, other: Date) -> bool {
        if self.year != other.year {
            self.year < other.year
        } else if self.month != other.month {
            self.month < other.month
        } else {
            self.day <= other.day
        }
    }

    pub open spec fn spec_lt(self, other: Date) -> bool {
        self.spec_le(other) && self != other
    }

    pub open spec fn spec_epoch() -> Date {
        Date { year: 1970, month: 1, day: 1 }
    }

    /// The first day of 1970, the value of every unset date field.
    #[verifier::when_used_as_spec(spec_epoch)]
    pub fn epoch() -> (r: Date)
        ensures
            r == Date::spec_epoch(),
    {
        Date { year: 1970, month: 1, day: 1 }
    }

    /// Build a date, checking that it lies on the calendar.
    pub fn from_ymd(year: u16, month: u8, day: u8) -> (r: Option<Date>)
        ensures
            match r {
                Some(d) => d == (Date { year, month, day }) && d.valid(),
                None => !(Date { year, month, day }).valid(),
            },
    {
        let d = Date { year, month, day };
        if 1 <= year && year <= MAX_YEAR && 1 <= month && month <= 12 && 1 <= day && day
            <= days_in_month(year, month) {
            Some(d)
        } else {
            None
        }
    }

    /// `self <= other` in calendar order.
    pub fn le(&self, other: &Date) -> (r: bool)
        ensures
            r == self.spec_le(*other),
    {
        if self.year != other.year {
            self.year < other.year
        } else if self.month != other.month {
            self.month < other.month
        } else {
            self.day <= other.day
        }
    }

    /// `self < other` in calendar order.
    pub fn lt(&self, other: &Date) -> (r: bool)
        ensures
            r == self.spec_lt(*other),
    {
        if self.year != other.year {
            self.year < other.year
        } else if self.month != other.month {
            self.month < other.month
        } else {
            self.day < other.day
        }
    }

    /// The first day of the month after this date's month.
    pub fn next_month(&self) -> (r: Date)
        requires
            self.valid(),
            self.month_index() < MAX_YEAR * 12 + 11,
        ensures
            r.valid(),
            r.day == 1,
            r.month_index() == self.month_index() + 1,
    {
        if self.month == 12 {
            Date { year: self.year + 1, month: 1, day: 1 }
        } else {
            Date { year: self.year, month: self.month + 1, day: 1 }
        }
    }
}

/// The first day of the month with the given index (months counted from
/// year 0).
pub open spec fn date_of_index(idx: int) -> Date {
    Date { year: (idx / 12) as u16, month: (idx % 12 + 1) as u8, day: 1 }
}

/// Builds the first day of the month with the given index.
pub fn month_date(idx: u32) -> (r: Date)
    requires
        12 <= idx <= MAX_YEAR * 12 + 11,
    ensures
        r == date_of_index(idx as int),
        r.valid(),
        r.day == 1,
        r.month_index() == idx,
{
    let r = Date { year: (idx / 12) as u16, month: (idx % 12 + 1) as u8, day: 1 };
    proof {
        assert(idx as int / 12 >= 1 && idx as int / 12 <= MAX_YEAR);
        assert(idx as int % 12 + 1 >= 1 && idx as int % 12 + 1 <= 12);
        assert(r.month_index() == (idx as int / 12) * 12 + (idx as int % 12));
        assert((idx as int / 12) * 12 + (idx as int % 12) == idx);
    }
    r
}

/// For dates on the same day of the month, calendar order is the order of
/// their month indices.
pub proof fn lemma_month_order(a: Date, b: Date)
    requires
        1 <= a.month <= 12,
        1 <= b.month <= 12,
        a.day == b.day,
    ensures
        a.spec_le(b) <==> a.month_index() <= b.month_index(),
        a.spec_lt(b) <==> a.month_index() < b.month_index(),
{
    if a.year < b.year {
        assert(a.month_index() < b.month_index());
    } else if b.year < a.year {
        assert(b.month_index() < a.month_index());
    }
}

/// How many days the given month has.
pub fn days_in_month(year: u16, month: u8) -> (r: u8)
    ensures
        r == spec_days_in_month(year as int, month as int),
{
    if month == 2 {
        if (year % 4 == 0 && year % 100 != 0) || year % 400 == 0 {
            29
        } else {
            28
        }
    } else if month == 4 || month == 6 || month == 9 || month == 11 {
        30
    } else {
        31
    }
}

/// Alignment of a date to the first day of its month, used throughout the
/// fee-window arithmetic.
pub trait AlignStart: Sized {
    spec fn spec_align_start(self) -> Self;

    fn align_start(self) -> (r: Self)
        ensures
            r == self.spec_align_start(),
    ;
}

impl AlignStart for Date {
    /// The same month, day 1.
    open spec fn spec_align_start(self) -> Date {
        Date { year: self.year, month: self.month, day: 1 }
    }

    fn align_start(self) -> (r: Date) {
        Date { year: self.year, month: self.month, day: 1 }
    }
}

/// The number of whole months between two dates; days are irrelevant.
pub trait CountMonths: Sized {
    /// The (possibly negative) count of months from `self`'s month to
    /// `other`'s month.
    spec fn months_until(self, other: Self) -> int;

    fn count_months(&self, other: &Self) -> (r: u64)
        requires
            self.months_until(*other) >= 0,
        ensures
            r == self.months_until(*other),
    ;
}

impl CountMonths for Date {
    open spec fn months_until(self, other: Date) -> int {
        other.month_index() - self.month_index()
    }

    /// The count of months from `self`'s month up to `other`'s month.
    fn count_months(&self, other: &Self) -> (r: u64) {
        let a: u64 = self.year as u64 * 12 + self.month as u64;
        let b: u64 = other.year as u64 * 12 + other.month as u64;
        b - a
    }
}

/// The first day of the month before the given date's month: the original
/// reports account balances up to the month before the current one.
pub fn month_before(d: Date) -> (r: Date)
    requires
        d.valid(),
        d.month_index() > 12,
    ensures
        r.valid(),
        r.day == 1,
        r.month_index() == d.month_index() - 1,
{
    if d.month == 1 {
        Date { year: d.year - 1, month: 12, day: 1 }
    } else {
        Date { year: d.year, month: d.month - 1, day: 1 }
    }
}

} // verus!
