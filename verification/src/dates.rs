use vstd::prelude::*;
use vstd::string::StrSliceExecFns;

use crate::digits::digits_at;
use crate::digits::digits_run;
use crate::digits::num2;
use crate::digits::num4;
use crate::digits::read_four_digits;
use crate::digits::read_two_digits;

verus! {

/// A calendar date, always understood at UTC midnight: activation is tracked
/// at calendar-day granularity only.
#[derive(Clone, Copy, PartialEq, Eq, Structural, Debug, Hash)]
pub struct Date {
    pub year: u16,
    pub month: u8,
    pub day: u8,
}

pub open spec fn is_leap_year(y: int) -> bool {
    (y % 4 == 0 && y % 100 != 0) || y % 400 == 0
}

pub open spec fn days_in_month(y: int, m: int) -> int {
    if m == 2 {
        if is_leap_year(y) {
            29
        } else {
            28
        }
    } else if m == 4 || m == 6 || m == 9 || m == 11 {
        30
    } else {
        31
    }
}

/// The calendar dates this library accepts: four-digit years, real months,
/// and days that exist in the given month.
pub open spec fn valid_ymd(y: int, m: int, d: int) -> bool {
    &&& 0 <= y <= 9999
    &&& 1 <= m <= 12
    &&& 1 <= d <= days_in_month(y, m)
}

impl Date {
    pub open spec fn well_formed(self) -> bool {
        valid_ymd(self.year as int, self.month as int, self.day as int)
    }

    /// Builds a date only when the components name a real calendar day.
    pub fn new(year: u16, month: u8, day: u8) -> (r: Option<Date>)
        ensures
            r is Some <==> valid_ymd(year as int, month as int, day as int),
            r matches Some(d) ==> d == (Date { year, month, day }) && d.well_formed(),
    {
        if year > 9999 || month < 1 || month > 12 || day < 1 {
            return None;
        }
        let max_day: u8 = if month == 2 {
            if (year % 4 == 0 && year % 100 != 0) || year % 400 == 0 {
                29
            } else {
                28
            }
        } else if month == 4 || month == 6 || month == 9 || month == 11 {
            30
        } else {
            31
        };
        if day <= max_day {
            Some(Date { year, month, day })
        } else {
            None
        }
    }

    /// Chronological order, compared year first, then month, then day.
    pub open spec fn spec_le(self, other: Date) -> bool {
        ||| self.year < other.year
        ||| (self.year == other.year && self.month < other.month)
        ||| (self.year == other.year && self.month == other.month && self.day <= other.day)
    }

    pub fn le(&self, other: &Date) -> (r: bool)
        ensures
            r == self.spec_le(*other),
    {
        if self.year != other.year {
            self.year < other.year
        } else if self.month != other.month {
            self.month < other.month
        } else {
            self.day <= other.day
        }
    }

    /// The earlier of two dates; on a tie the first argument is kept.
    pub open spec fn spec_min(a: Date, b: Date) -> Date {
        if a.spec_le(b) {
            a
        } else {
            b
        }
    }

    pub fn earliest(a: Date, b: Date) -> (r: Date)
        ensures
            r == Date::spec_min(a, b),
    {
        if a.le(&b) {
            a
        } else {
            b
        }
    }
}

/// What parsing a start-date field yields: exactly four digits, a dash, two
/// digits, a dash and two digits, naming a real calendar day.
pub open spec fn spec_parse_iso(s: Seq<char>) -> Option<Date> {
    if s.len() == 10 && digits_at(s, 0, 4) && s[4] == '-' && digits_at(s, 5, 2) && s[7] == '-'
        && digits_at(s, 8, 2) && valid_ymd(num4(s, 0), num2(s, 5), num2(s, 8)) {
        Some(
            Date {
                year: num4(s, 0) as u16,
                month: num2(s, 5) as u8,
                day: num2(s, 8) as u8,
            },
        )
    } else {
        None
    }
}

impl Date {
    /// Parses a date written `YYYY-MM-DD`; any other shape, or a day that
    /// does not exist, yields nothing.
    pub fn parse_iso(s: &str) -> (r: Option<Date>)
        ensures
            r == spec_parse_iso(s@),
            r matches Some(d) ==> d.well_formed(),
    {
        let n = s.unicode_len();
        if n != 10 {
            return None;
        }
        if !digits_run(s, 0, 4) || !digits_run(s, 5, 2) || !digits_run(s, 8, 2) {
            return None;
        }
        if s.get_char(4) != '-' || s.get_char(7) != '-' {
            return None;
        }
        let y = read_four_digits(s, 0);
        let m = read_two_digits(s, 5);
        let d = read_two_digits(s, 8);
        Date::new(y as u16, m as u8, d as u8)
    }
}

/// Keeping the earlier of two dates does not depend on the order in which
/// they arrive: the merge policy of the aggregate maps is commutative.
pub proof fn lemma_min_commutative(a: Date, b: Date)
    ensures
        Date::spec_min(a, b) == Date::spec_min(b, a),
{
}

/// Merging three dates pairwise gives the same earliest date however the
/// pairs are grouped: the merge policy is associative.
pub proof fn lemma_min_associative(a: Date, b: Date, c: Date)
    ensures
        Date::spec_min(Date::spec_min(a, b), c) == Date::spec_min(a, Date::spec_min(b, c)),
{
}

} // verus!
