//! Calendar days, and the day after a day.
//!
//! Reading a day from text, stepping to the next day and writing a day as
//! text are left to `chrono`; a day crosses that border as year, month and
//! day of the month.

use std::time::SystemTime;

use chrono::{DateTime, Datelike, Duration, NaiveDate, Utc};
use vstd::prelude::*;

use crate::text::digit;

verus! {

/// The first year whose days `chrono` can hold.
pub const MIN_YEAR: i32 = -262143;

/// The last year whose days `chrono` can hold.
pub const MAX_YEAR: i32 = 262142;

/// The form in which days are read and written: year, month and day of the
/// month, with hyphens between them.
pub const DAY_FORMAT: &'static str = "%Y-%m-%d";

/// A day of the proleptic Gregorian calendar.
#[derive(Clone, Copy, Debug, Eq, PartialEq)]
pub struct CalendarDate {
    pub year: i32,
    pub month: u32,
    pub day: u32,
}

/// The year has a 29th of February.
pub open spec fn is_leap_year(year: int) -> bool {
    year % 4 == 0 && (year % 100 != 0 || year % 400 == 0)
}

/// The number of days of a month.
pub open spec fn days_in_month(year: int, month: int) -> int {
    if month == 2 {
        if is_leap_year(year) {
            29
        } else {
            28
        }
    } else if month == 4 || month == 6 || month == 9 || month == 11 {
        30
    } else {
        31
    }
}

/// The number of 29ths of February from year 1 up to, but not counting,
/// `year`. For a year before year 1 it is what has to be taken back: the
/// number of them from `year` up to year 0, with a minus sign.
pub open spec fn leap_days_before(year: int) -> int {
    (year - 1) / 4 - (year - 1) / 100 + (year - 1) / 400
}

/// The number of days from the first day of year 1 up to, but not counting,
/// the first day of `year`; below zero for a year before year 1.
pub open spec fn days_before_year(year: int) -> int {
    365 * (year - 1) + leap_days_before(year)
}

/// The number of days of `year` that lie before the first day of `month`.
pub open spec fn days_before_month(year: int, month: int) -> int
    decreases month,
{
    if month <= 1 {
        0
    } else {
        days_before_month(year, month - 1) + days_in_month(year, month - 1)
    }
}

impl CalendarDate {
    /// The day exists: the year is one that `chrono` can hold, the month is
    /// one of twelve and the month has the day.
    pub open spec fn wf(self) -> bool {
        &&& MIN_YEAR <= self.year <= MAX_YEAR
        &&& 1 <= self.month <= 12
        &&& 1 <= self.day <= days_in_month(self.year as int, self.month as int)
    }

    /// The day is the last one there is.
    pub open spec fn is_last(self) -> bool {
        self.year == MAX_YEAR && self.month == 12 && self.day == 31
    }

    /// The next day: the next day of the month, or the first of the next
    /// month, or the first of January of the next year.
    pub open spec fn following(self) -> CalendarDate {
        if self.day < days_in_month(self.year as int, self.month as int) {
            CalendarDate { year: self.year, month: self.month, day: (self.day + 1) as u32 }
        } else if self.month < 12 {
            CalendarDate { year: self.year, month: (self.month + 1) as u32, day: 1 }
        } else {
            CalendarDate { year: (self.year + 1) as i32, month: 1, day: 1 }
        }
    }

    /// The place of the day in the run of all days, where the first day of
    /// year 1 has the number 1.
    pub open spec fn day_number(self) -> int {
        days_before_year(self.year as int) + days_before_month(self.year as int, self.month as int)
            + self.day
    }

    /// Every day but the last has a next day.
    pub proof fn lemma_following_exists(self)
        requires
            self.wf(),
            !self.is_last(),
        ensures
            self.following().wf(),
    {
    }

    /// The next day is one day later, also where the month ends, where the
    /// year ends and on either side of a 29th of February.
    pub proof fn lemma_following_is_one_day_later(self)
        requires
            self.wf(),
            !self.is_last(),
        ensures
            self.following().day_number() == self.day_number() + 1,
    {
        let year = self.year as int;
        reveal_with_fuel(days_before_month, 13);
        if self.day == days_in_month(year, self.month as int) && self.month == 12 {
            assert(days_before_month(year, 12) + 31 == 365 + if is_leap_year(year) {
                1int
            } else {
                0int
            });
            assert(leap_days_before(year + 1) == leap_days_before(year) + if is_leap_year(year) {
                1int
            } else {
                0int
            });
        }
    }
}

/// A day of the years 0 to 9999 as ten characters: the year in four digits,
/// the month in two and the day of the month in two, with hyphens between
/// them.
pub open spec fn iso_text(date: CalendarDate) -> Seq<char> {
    let year = date.year as int;
    let month = date.month as int;
    let day = date.day as int;
    seq![
        digit(year / 1000),
        digit(year / 100 % 10),
        digit(year / 10 % 10),
        digit(year % 10),
        '-',
        digit(month / 10),
        digit(month % 10),
        '-',
        digit(day / 10),
        digit(day % 10),
    ]
}

/// The character is one of the ten decimal digits.
pub open spec fn is_digit(c: char) -> bool {
    '0' <= c <= '9'
}

/// The number that a decimal digit stands for.
pub open spec fn digit_value(c: char) -> int {
    c as int - '0' as int
}

/// The day that ten characters name: four digits of a year, two of a month
/// and two of a day of the month, with hyphens between them, where that day
/// exists.
pub open spec fn iso_day(text: Seq<char>) -> Option<CalendarDate> {
    if text.len() == 10 && is_digit(text[0]) && is_digit(text[1]) && is_digit(text[2]) && is_digit(
        text[3],
    ) && text[4] == '-' && is_digit(text[5]) && is_digit(text[6]) && text[7] == '-' && is_digit(
        text[8],
    ) && is_digit(text[9]) {
        let day = CalendarDate {
            year: (1000 * digit_value(text[0]) + 100 * digit_value(text[1]) + 10 * digit_value(
                text[2],
            ) + digit_value(text[3])) as i32,
            month: (10 * digit_value(text[5]) + digit_value(text[6])) as u32,
            day: (10 * digit_value(text[8]) + digit_value(text[9])) as u32,
        };
        if day.wf() {
            Some(day)
        } else {
            None
        }
    } else {
        None
    }
}

/// The day that `chrono` reads from a text in the form of [`DAY_FORMAT`], or
/// nothing where it reads none.
pub uninterp spec fn parsed_date(text: Seq<char>) -> Option<CalendarDate>;

/// The text that `chrono` writes for a day in the form of [`DAY_FORMAT`].
pub uninterp spec fn date_text(date: CalendarDate) -> Seq<char>;

/// Calls `chrono::NaiveDate::parse_from_str` with the form [`DAY_FORMAT`] and
/// takes the day read apart with `year`, `month` and `day` of
/// `chrono::Datelike`. Trusted: the same text always reads as the same day,
/// a day that was read exists, and ten characters that name an existing day
/// with a year of four digits, a month of two and a day of two read as that
/// day.
#[verifier::external_body]
pub(crate) fn parse_date(text: &str) -> (date: Option<CalendarDate>)
    ensures
        date == parsed_date(text@),
        date matches Some(day) ==> day.wf(),
        iso_day(text@) is Some ==> date == iso_day(text@),
{
    match NaiveDate::parse_from_str(text, DAY_FORMAT) {
        Ok(day) => Some(CalendarDate { year: day.year(), month: day.month(), day: day.day() }),
        Err(_) => None,
    }
}

/// Calls `chrono::NaiveDate::checked_add_signed` with one day
/// (`chrono::Duration::days`) on the day built by
/// `chrono::NaiveDate::from_ymd_opt`. Trusted: the result is the next day of
/// the calendar, and there is none only after the last day.
#[verifier::external_body]
pub(crate) fn day_after(date: CalendarDate) -> (next: Option<CalendarDate>)
    requires
        date.wf(),
    ensures
        next == (if date.is_last() {
            None
        } else {
            Some(date.following())
        }),
{
    let day = NaiveDate::from_ymd_opt(date.year, date.month, date.day)?;
    let next = day.checked_add_signed(Duration::days(1))?;
    Some(CalendarDate { year: next.year(), month: next.month(), day: next.day() })
}

/// Calls `chrono::NaiveDate::format` with the form [`DAY_FORMAT`] on the day
/// built by `chrono::NaiveDate::from_ymd_opt`. Trusted: the same day is
/// always written as the same text, and a day of the years 0 to 9999 is
/// written with a year of four digits, a month of two and a day of two, each
/// filled up with zeros.
#[verifier::external_body]
pub(crate) fn format_date(date: CalendarDate) -> (text: String)
    requires
        date.wf(),
    ensures
        text@ == date_text(date),
        0 <= date.year <= 9999 ==> text@ == iso_text(date),
{
    match NaiveDate::from_ymd_opt(date.year, date.month, date.day) {
        Some(day) => day.format(DAY_FORMAT).to_string(),
        None => String::new(),
    }
}

/// Reads the system clock with `std::time::SystemTime::now`, turns the
/// moment into one of `chrono` with `chrono::DateTime::<Utc>::from`, which
/// also takes a clock that stands before 1970, and takes the day of that
/// moment in UTC with `date_naive`. Trusted: that day exists. Which day it is
/// depends on when the call is made.
#[verifier::external_body]
pub(crate) fn utc_today() -> (today: CalendarDate)
    ensures
        today.wf(),
{
    let day = DateTime::<Utc>::from(SystemTime::now()).date_naive();
    CalendarDate { year: day.year(), month: day.month(), day: day.day() }
}

/// The text of a day: that of [`iso_text`] for a day of the years 0 to 9999,
/// and for any other day what `chrono` writes.
pub open spec fn day_text(date: CalendarDate) -> Seq<char> {
    if 0 <= date.year <= 9999 {
        iso_text(date)
    } else {
        date_text(date)
    }
}

/// The text of the day after `parsed`, or `date` where no day was read from
/// it or no day follows.
pub open spec fn following_text(date: Seq<char>, parsed: Option<CalendarDate>) -> Seq<char> {
    match parsed {
        Some(day) => if day.is_last() {
            date
        } else {
            day_text(day.following())
        },
        None => date,
    }
}

/// The day that a text reads as: the day that its ten characters name, and
/// for any other text what `chrono` reads from it.
pub open spec fn read_day(text: Seq<char>) -> Option<CalendarDate> {
    match iso_day(text) {
        Some(day) => Some(day),
        None => parsed_date(text),
    }
}

/// The text of the day after the day that `date` reads as; a text that does
/// not read as a day stays as it is.
pub open spec fn next_date_text(date: Seq<char>) -> Seq<char> {
    following_text(date, read_day(date))
}

/// Writes the day after `parsed`, the day that was read from `date`. Where
/// nothing was read, or where `parsed` is the last day there is, `date` is
/// handed back.
pub fn next_date_of(date: &str, parsed: Option<CalendarDate>) -> (next: String)
    requires
        parsed matches Some(day) ==> day.wf(),
    ensures
        next@ == following_text(date@, parsed),
{
    match parsed {
        Some(day) => match day_after(day) {
            Some(following) => {
                proof {
                    day.lemma_following_exists();
                }
                format_date(following)
            },
            None => date.to_owned(),
        },
        None => date.to_owned(),
    }
}

/// The day after `date`, written as `date` is: year, month and day with
/// hyphens between them. A text that does not read as a day is handed back
/// unchanged.
pub fn next_date(date: &str) -> (next: String)
    ensures
        next@ == next_date_text(date@),
        read_day(date@) is None ==> next@ == date@,
{
    let parsed = parse_date(date);
    next_date_of(date, parsed)
}

/// The ten characters of an existing day of the years 0 to 9999 name that
/// day.
pub proof fn lemma_iso_text_names_its_day(day: CalendarDate)
    requires
        day.wf(),
        0 <= day.year <= 9999,
    ensures
        iso_day(iso_text(day)) == Some(day),
{
    let text = iso_text(day);
    assert(text.len() == 10);
    assert(forall|n: int| 0 <= n <= 9 ==> is_digit(#[trigger] digit(n)) && digit_value(digit(n)) == n);
}

/// Date rollover. The day after an existing day of the years 0 to 9999,
/// given in ten characters, is the next day of the calendar: the next day of
/// the month, the first of the next month after the last day of a month, the
/// first of January of the next year after the 31st of December, and the
/// 29th of February after the 28th exactly in a leap year.
pub proof fn lemma_next_date_rolls_over(day: CalendarDate)
    requires
        day.wf(),
        0 <= day.year <= 9999,
    ensures
        next_date_text(iso_text(day)) == day_text(day.following()),
        day.following().wf(),
        day.following().day_number() == day.day_number() + 1,
        day.year < 9999 ==> next_date_text(iso_text(day)) == iso_text(day.following()),
{
    lemma_iso_text_names_its_day(day);
    day.lemma_following_exists();
    day.lemma_following_is_one_day_later();
}

} // verus!
