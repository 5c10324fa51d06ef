//! The two languages a bank export comes in, and the date format each one
//! uses. The engine only needs the date grammar; detecting the language and
//! decoding numbers stay with the reader of the file.

use vstd::prelude::*;
use vstd::string::StrSliceExecFns;

use crate::dates::{spec_days_in_month, Date, MAX_YEAR};

verus! {

/// The language of a bank CSV export.
#[derive(Debug, PartialEq, Eq, Structural)]
pub enum Language {
    DE,
    EN,
}

/// A decimal digit character.
pub open spec fn is_digit(c: char) -> bool {
    '0' <= c && c <= '9'
}

/// The value of a decimal digit character.
pub open spec fn digit_value(c: char) -> int {
    c as int - '0' as int
}

/// The value of the two digit characters at position `i`.
pub open spec fn two_digits(s: Seq<char>, i: int) -> int {
    digit_value(s[i]) * 10 + digit_value(s[i + 1])
}

/// The value of the four digit characters at position `i`.
pub open spec fn four_digits(s: Seq<char>, i: int) -> int {
    two_digits(s, i) * 100 + two_digits(s, i + 2)
}

/// Ten characters shaped `DD sep MM sep YYYY` (day first) or
/// `MM sep DD sep YYYY` (month first).
pub open spec fn date_shape(s: Seq<char>, sep: char) -> bool {
    &&& s.len() == 10
    &&& is_digit(s[0]) && is_digit(s[1])
    &&& s[2] == sep
    &&& is_digit(s[3]) && is_digit(s[4])
    &&& s[5] == sep
    &&& is_digit(s[6]) && is_digit(s[7]) && is_digit(s[8]) && is_digit(s[9])
}

/// The date the ten characters denote, day/month/year order as given.
pub open spec fn shaped_date(day: int, month: int, year: int) -> Option<Date> {
    if 1 <= year <= MAX_YEAR && 1 <= month <= 12 && 1 <= day && day <= spec_days_in_month(
        year,
        month,
    ) {
        Some(Date { year: year as u16, month: month as u8, day: day as u8 })
    } else {
        None
    }
}

/// What `parse_date` accepts for each language: `DD.MM.YYYY` for DE,
/// `MM/DD/YYYY` for EN, two digits each for day and month, four for the
/// year, denoting a date that lies on the calendar.
pub open spec fn spec_parse_date(lang: Language, s: Seq<char>) -> Option<Date> {
    match lang {
        Language::DE => if date_shape(s, '.') {
            shaped_date(two_digits(s, 0), two_digits(s, 3), four_digits(s, 6))
        } else {
            None
        },
        Language::EN => if date_shape(s, '/') {
            shaped_date(two_digits(s, 3), two_digits(s, 0), four_digits(s, 6))
        } else {
            None
        },
    }
}

/// Reads the two digit characters at position `i`.
fn read_two_digits(s: &str, i: usize) -> (r: Option<u32>)
    requires
        i + 2 <= s@.len(),
        i + 2 <= usize::MAX,
    ensures
        match r {
            Some(v) => is_digit(s@[i as int]) && is_digit(s@[i + 1]) && v == two_digits(
                s@,
                i as int,
            ) && v <= 99,
            None => !(is_digit(s@[i as int]) && is_digit(s@[i + 1])),
        },
{
    let c0 = s.get_char(i);
    let c1 = s.get_char(i + 1);
    if '0' <= c0 && c0 <= '9' && '0' <= c1 && c1 <= '9' {
        let v0 = c0 as u32 - '0' as u32;
        let v1 = c1 as u32 - '0' as u32;
        Some(v0 * 10 + v1)
    } else {
        None
    }
}

impl Language {
    /// Decodes a date in this language's format: `DD.MM.YYYY` for DE,
    /// `MM/DD/YYYY` for EN. Two digits each for day and month, four for the
    /// year; dates off the calendar are rejected.
    pub fn parse_date(&self, date: &str) -> (r: Option<Date>)
        ensures
            r == spec_parse_date(*self, date@),
    {
        let sep = match self {
            Language::DE => '.',
            Language::EN => '/',
        };
        if date.unicode_len() != 10 {
            return None;
        }
        if date.get_char(2) != sep || date.get_char(5) != sep {
            return None;
        }
        let first = match read_two_digits(date, 0) {
            Some(v) => v,
            None => {
                return None;
            },
        };
        let second = match read_two_digits(date, 3) {
            Some(v) => v,
            None => {
                return None;
            },
        };
        let y_high = match read_two_digits(date, 6) {
            Some(v) => v,
            None => {
                return None;
            },
        };
        let y_low = match read_two_digits(date, 8) {
            Some(v) => v,
            None => {
                return None;
            },
        };
        let year = y_high * 100 + y_low;
        let (day, month) = match self {
            Language::DE => (first, second),
            Language::EN => (second, first),
        };
        if !(1 <= year && year <= MAX_YEAR as u32 && 1 <= month && month <= 12) {
            return None;
        }
        let d = crate::dates::days_in_month(year as u16, month as u8);
        if !(1 <= day && day <= d as u32) {
            return None;
        }
        Some(Date { year: year as u16, month: month as u8, day: day as u8 })
    }
}

} // verus!
