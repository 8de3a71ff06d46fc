//! Calendar dates and the strict `YYYY-MM-DD` date format used by the
//! upload and listing surfaces.

use vstd::prelude::*;
use vstd::string::*;

verus! {

/// A calendar date. Recordings are partitioned on disk and filtered in
/// queries by such a date.
#[derive(PartialEq, Eq, Structural, Clone, Copy, Debug)]
pub struct Date {
    pub year: u32,
    pub month: u32,
    pub day: u32,
}

/// Whether `year` is a leap year of the Gregorian calendar.
pub open spec fn spec_is_leap_year(year: int) -> bool {
    year % 4 == 0 && (year % 100 != 0 || year % 400 == 0)
}

/// Number of days of `month` in `year`; 0 when `month` is not a month.
pub open spec fn spec_days_in_month(year: int, month: int) -> int {
    if month == 1 || month == 3 || month == 5 || month == 7 || month == 8 || month == 10
        || month == 12 {
        31
    } else if month == 4 || month == 6 || month == 9 || month == 11 {
        30
    } else if month == 2 {
        if spec_is_leap_year(year) {
            29
        } else {
            28
        }
    } else {
        0
    }
}

impl Date {
    /// A well-formed calendar date: the month exists and the day falls
    /// inside it. Years are bounded by the four-digit date format.
    pub open spec fn valid(self) -> bool {
        self.year <= 9999 && 1 <= self.month <= 12 && 1 <= self.day && self.day
            <= spec_days_in_month(self.year as int, self.month as int)
    }

    /// Total order key of a date: later dates have larger keys.
    pub open spec fn key(self) -> int {
        (self.year as int) * 10000 + (self.month as int) * 100 + (self.day as int)
    }
}

/// Whether `c` is an ASCII decimal digit.
pub open spec fn spec_is_digit(c: char) -> bool {
    48 <= c as int <= 57
}

/// The numeric value of an ASCII decimal digit.
pub open spec fn spec_digit_val(c: char) -> int {
    c as int - 48
}

/// Whether `s` has the shape `YYYY-MM-DD`: four digits, a dash, two
/// digits, a dash, two digits.
pub open spec fn spec_date_shape(s: Seq<char>) -> bool {
    &&& s.len() == 10
    &&& spec_is_digit(s[0])
    &&& spec_is_digit(s[1])
    &&& spec_is_digit(s[2])
    &&& spec_is_digit(s[3])
    &&& s[4] == '-'
    &&& spec_is_digit(s[5])
    &&& spec_is_digit(s[6])
    &&& s[7] == '-'
    &&& spec_is_digit(s[8])
    &&& spec_is_digit(s[9])
}

/// The date that a string of shape `YYYY-MM-DD` spells, read positionally.
pub open spec fn spec_date_of(s: Seq<char>) -> Date {
    Date {
        year: (spec_digit_val(s[0]) * 1000 + spec_digit_val(s[1]) * 100 + spec_digit_val(s[2]) * 10
            + spec_digit_val(s[3])) as u32,
        month: (spec_digit_val(s[5]) * 10 + spec_digit_val(s[6])) as u32,
        day: (spec_digit_val(s[8]) * 10 + spec_digit_val(s[9])) as u32,
    }
}

/// What parsing a date string yields: the spelled date when the string has
/// the `YYYY-MM-DD` shape and spells a valid calendar date, nothing
/// otherwise.
pub open spec fn spec_parse_date(s: Seq<char>) -> Option<Date> {
    if spec_date_shape(s) && spec_date_of(s).valid() {
        Some(spec_date_of(s))
    } else {
        None
    }
}

/// Reads one character of `s` as a decimal digit.
fn read_digit(s: &str, i: usize) -> (r: Option<u32>)
    requires
        i < s@.len(),
    ensures
        match r {
            Some(v) => spec_is_digit(s@[i as int]) && v == spec_digit_val(s@[i as int]) && v <= 9,
            None => !spec_is_digit(s@[i as int]),
        },
{
    let c = s.get_char(i);
    let u = c as u32;
    if 48 <= u && u <= 57 {
        Some(u - 48)
    } else {
        None
    }
}

/// Parses a date given in the strict `YYYY-MM-DD` format, rejecting
/// anything of another shape and any string that spells no valid calendar
/// date (such as a thirteenth month, or February 29 outside a leap year).
pub fn parse_date(s: &str) -> (r: Option<Date>)
    ensures
        r == spec_parse_date(s@),
        r is Some ==> r->0.valid(),
{
    let n = s.unicode_len();
    if n != 10 {
        return None;
    }
    if s.get_char(4) != '-' || s.get_char(7) != '-' {
        return None;
    }
    let (d0, d1, d2, d3) = match (read_digit(s, 0), read_digit(s, 1), read_digit(s, 2), read_digit(
        s,
        3,
    )) {
        (Some(a), Some(b), Some(c), Some(d)) => (a, b, c, d),
        _ => {
            return None;
        },
    };
    let (m0, m1) = match (read_digit(s, 5), read_digit(s, 6)) {
        (Some(a), Some(b)) => (a, b),
        _ => {
            return None;
        },
    };
    let (y0, y1) = match (read_digit(s, 8), read_digit(s, 9)) {
        (Some(a), Some(b)) => (a, b),
        _ => {
            return None;
        },
    };
    let date = Date {
        year: d0 * 1000 + d1 * 100 + d2 * 10 + d3,
        month: m0 * 10 + m1,
        day: y0 * 10 + y1,
    };
    if date.month < 1 || date.month > 12 {
        return None;
    }
    if date.day < 1 || date.day > days_in_month(date.year, date.month) {
        return None;
    }
    Some(date)
}

/// Number of days of `month` in `year`.
pub fn days_in_month(year: u32, month: u32) -> (r: u32)
    requires
        1 <= month <= 12,
    ensures
        r == spec_days_in_month(year as int, month as int),
{
    match month {
        1 | 3 | 5 | 7 | 8 | 10 | 12 => 31,
        4 | 6 | 9 | 11 => 30,
        _ => {
            if year % 4 == 0 && (year % 100 != 0 || year % 400 == 0) {
                29
            } else {
                28
            }
        },
    }
}

} // verus!
