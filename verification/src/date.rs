//! Civil dates without a time zone, read from `YYYYMMDD` and written as
//! `YYYY-MM-DD`.

use crate::number::{all_digits, char_is_digit, digit_char, digits_value, is_digit};
use crate::text::string_of;
use chrono::Datelike;
use vstd::prelude::*;

verus! {

/// Whether a year of the Gregorian calendar has a 29th of February.
pub open spec fn is_leap_year(year: int) -> bool {
    year % 4 == 0 && (year % 100 != 0 || year % 400 == 0)
}

/// The number of days of a month, for months one to twelve.
pub open spec fn days_in_month(year: int, month: int) -> int {
    if month == 2 {
        if is_leap_year(year) {
            29
        } else {
            28
        }
    } else if month == 4 || month == 6 || month == 9 || month == 11 {
        30
    } else {
        31
    }
}

/// Whether year, month and day name a day of the Gregorian calendar in the
/// years 0 to 9999, the years that four digits can write.
pub open spec fn is_valid_date(year: int, month: int, day: int) -> bool {
    &&& 0 <= year <= 9999
    &&& 1 <= month <= 12
    &&& 1 <= day <= days_in_month(year, month)
}

/// A number below a hundred as two decimal digits.
pub open spec fn two_digits(n: int) -> Seq<char> {
    seq![digit_char(n / 10), digit_char(n % 10)]
}

/// A number below ten thousand as four decimal digits.
pub open spec fn four_digits(n: int) -> Seq<char> {
    two_digits(n / 100) + two_digits(n % 100)
}

/// A civil date of the Gregorian calendar. Every value is a valid date.
#[derive(Debug, Clone, Copy, PartialEq, Eq, Structural)]
pub struct Date {
    year: i32,
    month: u32,
    day: u32,
}

/// The date with the given year, month and day.
pub closed spec fn date_of(year: int, month: int, day: int) -> Date {
    Date { year: year as i32, month: month as u32, day: day as u32 }
}

/// The date that eight decimal digits `YYYYMMDD` name, if they name one.
pub open spec fn date_of_digits(s: Seq<char>) -> Option<Date> {
    let year = digits_value(s.subrange(0, 4));
    let month = digits_value(s.subrange(4, 6));
    let day = digits_value(s.subrange(6, 8));
    if is_valid_date(year, month, day) {
        Some(date_of(year, month, day))
    } else {
        None
    }
}

/// The date that a text names: exactly eight decimal digits `YYYYMMDD`
/// that are a day of the calendar.
pub open spec fn date_of_text(t: Seq<char>) -> Option<Date> {
    if t.len() == 8 && all_digits(t) {
        date_of_digits(t)
    } else {
        None
    }
}

impl Date {
    /// The year, from 0 to 9999.
    pub closed spec fn spec_year(self) -> int {
        self.year as int
    }

    /// The month, from 1 to 12.
    pub closed spec fn spec_month(self) -> int {
        self.month as int
    }

    /// The day of the month, from 1.
    pub closed spec fn spec_day(self) -> int {
        self.day as int
    }

    /// Year, month and day are a day of the calendar.
    #[verifier::type_invariant]
    pub closed spec fn wf(self) -> bool {
        is_valid_date(self.year as int, self.month as int, self.day as int)
    }

    /// The text `YYYY-MM-DD` of the date.
    pub open spec fn text(self) -> Seq<char> {
        four_digits(self.spec_year()) + seq!['-'] + two_digits(self.spec_month()) + seq!['-']
            + two_digits(self.spec_day())
    }

    /// The date with the given year, month and day, where they name a day
    /// of the calendar in the years 0 to 9999.
    pub fn new(year: i32, month: u32, day: u32) -> (r: Option<Date>)
        ensures
            r == if is_valid_date(year as int, month as int, day as int) {
                Some(date_of(year as int, month as int, day as int))
            } else {
                None
            },
    {
        if year < 0 || year > 9999 || month < 1 || month > 12 || day < 1 {
            return None;
        }
        let leap = year % 4 == 0 && (year % 100 != 0 || year % 400 == 0);
        let days: u32 = if month == 2 {
            if leap {
                29
            } else {
                28
            }
        } else if month == 4 || month == 6 || month == 9 || month == 11 {
            30
        } else {
            31
        };
        if day > days {
            return None;
        }
        Some(Date { year, month, day })
    }

    /// The year, from 0 to 9999.
    pub fn year(&self) -> (y: i32)
        ensures
            y == self.spec_year(),
            0 <= y <= 9999,
    {
        proof {
            use_type_invariant(self);
        }
        self.year
    }

    /// The month, from 1 to 12.
    pub fn month(&self) -> (m: u32)
        ensures
            m == self.spec_month(),
            1 <= m <= 12,
    {
        proof {
            use_type_invariant(self);
        }
        self.month
    }

    /// The day of the month.
    pub fn day(&self) -> (d: u32)
        ensures
            d == self.spec_day(),
            1 <= d <= days_in_month(self.spec_year(), self.spec_month()),
    {
        proof {
            use_type_invariant(self);
        }
        self.day
    }

    /// Read a date from exactly eight decimal digits, `YYYYMMDD`.
    pub fn parse(text: &Vec<char>) -> (r: Option<Date>)
        ensures
            r == date_of_text(text@),
    {
        if text.len() != 8 {
            return None;
        }
        let mut i: usize = 0;
        while i < 8
            invariant
                i <= 8 == text.len(),
                forall|j: int| 0 <= j < i ==> is_digit(#[trigger] text@[j]),
            decreases 8 - i,
        {
            if !char_is_digit(text[i]) {
                return None;
            }
            i += 1;
        }
        let digits = string_of(text, 0, 8);
        assert(digits@ == text@);
        parse_ymd(&digits)
    }

    /// Write the date as `YYYY-MM-DD`.
    pub fn to_text(&self) -> (s: String)
        ensures
            s@ == self.text(),
    {
        proof {
            use_type_invariant(self);
        }
        format_ymd(self)
    }
}

/// A date is known by its year, month and day.
pub proof fn lemma_date_parts(year: int, month: int, day: int)
    requires
        is_valid_date(year, month, day),
    ensures
        date_of(year, month, day).spec_year() == year,
        date_of(year, month, day).spec_month() == month,
        date_of(year, month, day).spec_day() == day,
        date_of(year, month, day).wf(),
{
}

/// `chrono::NaiveDate::parse_from_str` with the format `%Y%m%d`, on eight
/// decimal digits. The format reads an unsigned year of up to four digits,
/// then a month and a day of up to two digits each, so the digits split as
/// four, two and two; the date is returned where the three numbers are a
/// day of the proleptic Gregorian calendar, and refused otherwise.
#[verifier::external_body]
fn parse_ymd(digits: &str) -> (r: Option<Date>)
    requires
        digits@.len() == 8,
        all_digits(digits@),
    ensures
        r == date_of_digits(digits@),
{
    match chrono::NaiveDate::parse_from_str(digits, "%Y%m%d") {
        Ok(d) => Some(Date { year: d.year(), month: d.month(), day: d.day() }),
        Err(_) => None,
    }
}

/// `chrono::NaiveDate::format` with the format `%Y-%m-%d`, for a valid date
/// in the years 0 to 9999: the year as four digits, the month and the day
/// as two digits each, padded with zeros and joined by hyphens.
#[verifier::external_body]
fn format_ymd(date: &Date) -> (s: String)
    requires
        date.wf(),
    ensures
        s@ == date.text(),
{
    chrono::NaiveDate::from_ymd_opt(date.year, date.month, date.day).unwrap().format(
        "%Y-%m-%d",
    ).to_string()
}

} // verus!
