//! Calendar dates in the proleptic Gregorian calendar, counted in whole days.
//!
//! A [`Date`] holds a year, a month and a day of the month. Its position on the
//! time line is its day number: the count of days that has 1 January of year 1
//! as day 1. Weekdays, shifts by a number of days and distances between dates are
//! all stated over that count.

use crate::digits::{decimal, two_digits};
use chrono::{Datelike, NaiveDate, TimeDelta};
use vstd::prelude::*;

verus! {

/// A day of the week.
#[derive(Debug, Clone, Copy, PartialEq, Eq, Structural)]
pub enum Weekday {
    Mon,
    Tue,
    Wed,
    Thu,
    Fri,
    Sat,
    Sun,
}

impl Weekday {
    /// The number of days since Monday, from 0 to 6.
    pub open spec fn index(self) -> int {
        match self {
            Weekday::Mon => 0,
            Weekday::Tue => 1,
            Weekday::Wed => 2,
            Weekday::Thu => 3,
            Weekday::Fri => 4,
            Weekday::Sat => 5,
            Weekday::Sun => 6,
        }
    }

    /// The weekday that lies `index` days after Monday; Sunday for every
    /// index outside 0 to 5.
    pub open spec fn from_index(index: int) -> Weekday {
        if index == 0 {
            Weekday::Mon
        } else if index == 1 {
            Weekday::Tue
        } else if index == 2 {
            Weekday::Wed
        } else if index == 3 {
            Weekday::Thu
        } else if index == 4 {
            Weekday::Fri
        } else if index == 5 {
            Weekday::Sat
        } else {
            Weekday::Sun
        }
    }

    /// The name of the weekday: its first three letters, in lower case.
    pub open spec fn text(self) -> Seq<char> {
        match self {
            Weekday::Mon => "mon"@,
            Weekday::Tue => "tue"@,
            Weekday::Wed => "wed"@,
            Weekday::Thu => "thu"@,
            Weekday::Fri => "fri"@,
            Weekday::Sat => "sat"@,
            Weekday::Sun => "sun"@,
        }
    }

    /// The name of the weekday: its first three letters, in lower case.
    pub fn name(&self) -> (r: &'static str)
        ensures
            r@ == self.text(),
    {
        match self {
            Weekday::Mon => "mon",
            Weekday::Tue => "tue",
            Weekday::Wed => "wed",
            Weekday::Thu => "thu",
            Weekday::Fri => "fri",
            Weekday::Sat => "sat",
            Weekday::Sun => "sun",
        }
    }

    /// The number of days since Monday, from 0 to 6.
    pub fn days_since_monday(&self) -> (r: u32)
        ensures
            r == self.index(),
    {
        match self {
            Weekday::Mon => 0,
            Weekday::Tue => 1,
            Weekday::Wed => 2,
            Weekday::Thu => 3,
            Weekday::Fri => 4,
            Weekday::Sat => 5,
            Weekday::Sun => 6,
        }
    }

    /// The number of days since Sunday, from 0 to 6.
    pub fn days_since_sunday(&self) -> (r: u32)
        ensures
            r == (self.index() + 1) % 7,
    {
        match self {
            Weekday::Mon => 1,
            Weekday::Tue => 2,
            Weekday::Wed => 3,
            Weekday::Thu => 4,
            Weekday::Fri => 5,
            Weekday::Sat => 6,
            Weekday::Sun => 0,
        }
    }
}

/// A month of the year.
#[derive(Debug, Clone, Copy, PartialEq, Eq, Structural)]
pub enum Month {
    January,
    February,
    March,
    April,
    May,
    June,
    July,
    August,
    September,
    October,
    November,
    December,
}

impl Month {
    /// The number of the month, from 1 for January to 12 for December.
    pub open spec fn number(self) -> int {
        match self {
            Month::January => 1,
            Month::February => 2,
            Month::March => 3,
            Month::April => 4,
            Month::May => 5,
            Month::June => 6,
            Month::July => 7,
            Month::August => 8,
            Month::September => 9,
            Month::October => 10,
            Month::November => 11,
            Month::December => 12,
        }
    }

    /// The month with the given number; December for every number outside 1 to 11.
    pub open spec fn from_number(number: int) -> Month {
        if number == 1 {
            Month::January
        } else if number == 2 {
            Month::February
        } else if number == 3 {
            Month::March
        } else if number == 4 {
            Month::April
        } else if number == 5 {
            Month::May
        } else if number == 6 {
            Month::June
        } else if number == 7 {
            Month::July
        } else if number == 8 {
            Month::August
        } else if number == 9 {
            Month::September
        } else if number == 10 {
            Month::October
        } else if number == 11 {
            Month::November
        } else {
            Month::December
        }
    }

    /// The name of the month: its first three letters, in lower case.
    pub open spec fn text(self) -> Seq<char> {
        match self {
            Month::January => "jan"@,
            Month::February => "feb"@,
            Month::March => "mar"@,
            Month::April => "apr"@,
            Month::May => "may"@,
            Month::June => "jun"@,
            Month::July => "jul"@,
            Month::August => "aug"@,
            Month::September => "sep"@,
            Month::October => "oct"@,
            Month::November => "nov"@,
            Month::December => "dec"@,
        }
    }

    /// The name of the month: its first three letters, in lower case.
    pub fn name(&self) -> (r: &'static str)
        ensures
            r@ == self.text(),
    {
        match self {
            Month::January => "jan",
            Month::February => "feb",
            Month::March => "mar",
            Month::April => "apr",
            Month::May => "may",
            Month::June => "jun",
            Month::July => "jul",
            Month::August => "aug",
            Month::September => "sep",
            Month::October => "oct",
            Month::November => "nov",
            Month::December => "dec",
        }
    }

    /// The month with the given number, where there is one.
    pub fn from_u32(number: u32) -> (r: Option<Month>)
        ensures
            r == (if 1 <= number <= 12 {
                Some(Month::from_number(number as int))
            } else {
                None
            }),
    {
        match number {
            1 => Some(Month::January),
            2 => Some(Month::February),
            3 => Some(Month::March),
            4 => Some(Month::April),
            5 => Some(Month::May),
            6 => Some(Month::June),
            7 => Some(Month::July),
            8 => Some(Month::August),
            9 => Some(Month::September),
            10 => Some(Month::October),
            11 => Some(Month::November),
            12 => Some(Month::December),
            _ => None,
        }
    }

    /// The number of the month, from 1 for January to 12 for December.
    pub fn number_from_january(&self) -> (r: u32)
        ensures
            r == self.number(),
    {
        match self {
            Month::January => 1,
            Month::February => 2,
            Month::March => 3,
            Month::April => 4,
            Month::May => 5,
            Month::June => 6,
            Month::July => 7,
            Month::August => 8,
            Month::September => 9,
            Month::October => 10,
            Month::November => 11,
            Month::December => 12,
        }
    }
}

/// The earliest year a [`Date`] can hold.
pub const MIN_YEAR: i32 = -262143;

/// The latest year a [`Date`] can hold.
pub const MAX_YEAR: i32 = 262142;

/// Every fourth year is a leap year, except the centuries that 400 does not divide.
pub open spec fn is_leap_year(year: int) -> bool {
    year % 4 == 0 && (year % 100 != 0 || year % 400 == 0)
}

/// The length of a month in days.
pub open spec fn days_in_month(year: int, month: int) -> int {
    if month == 2 {
        if is_leap_year(year) {
            29
        } else {
            28
        }
    } else if month == 4 || month == 6 || month == 9 || month == 11 {
        30
    } else {
        31
    }
}

/// The number of days of `year` that lie before the first day of `month`.
pub open spec fn days_before_month(year: int, month: int) -> int
    decreases month,
{
    if month <= 1 {
        0
    } else {
        days_before_month(year, month - 1) + days_in_month(year, month - 1)
    }
}

/// The number of days between the start of year 1 and the start of `year`;
/// negative for the years before year 1.
pub open spec fn days_before_year(year: int) -> int {
    let y = year - 1;
    365 * y + y / 4 - y / 100 + y / 400
}

/// The day number of a calendar date: 1 January of year 1 is day 1.
pub open spec fn day_number(year: int, month: int, day: int) -> int {
    days_before_year(year) + days_before_month(year, month) + day
}

/// Whether year, month and day name a day that exists and that a [`Date`] can hold.
pub open spec fn is_calendar_date(year: int, month: int, day: int) -> bool {
    &&& MIN_YEAR <= year <= MAX_YEAR
    &&& 1 <= month <= 12
    &&& 1 <= day <= days_in_month(year, month)
}

/// The weekday of the day with the given day number. Day 1 is a Monday.
pub open spec fn weekday_of_day_number(n: int) -> Weekday {
    Weekday::from_index((n + 6) % 7)
}

/// The text of a year in a date: four digits for the years 0 to 9999; for every
/// other year a sign and at least four digits.
pub open spec fn year_text(year: int) -> Seq<char> {
    if 0 <= year <= 9999 {
        two_digits(year / 100) + two_digits(year % 100)
    } else {
        let sign = if year < 0 {
            '-'
        } else {
            '+'
        };
        let digits = decimal((if year < 0 {
            -year
        } else {
            year
        }) as nat);
        let missing = if digits.len() < 4 {
            (4 - digits.len()) as nat
        } else {
            0
        };
        seq![sign] + Seq::new(missing, |i: int| '0') + digits
    }
}

/// The text of a date: year, month and day, the last two in two digits each,
/// with a hyphen between them.
pub open spec fn date_text(year: int, month: int, day: int) -> Seq<char> {
    year_text(year) + seq!['-'] + two_digits(month) + seq!['-'] + two_digits(day)
}

/// A day of the proleptic Gregorian calendar, from 1 January of [`MIN_YEAR`]
/// to 31 December of [`MAX_YEAR`].
#[derive(Debug, Clone, Copy, PartialEq, Eq, Structural)]
pub struct Date {
    year: i32,
    month: u32,
    day: u32,
}

impl Date {
    /// The year, as [`Date::year`] gives it.
    pub closed spec fn spec_year(&self) -> i32 {
        self.year
    }

    /// The month, as [`Date::month`] gives it.
    pub closed spec fn spec_month(&self) -> u32 {
        self.month
    }

    /// The day of the month, as [`Date::day`] gives it.
    pub closed spec fn spec_day(&self) -> u32 {
        self.day
    }

    /// A date always names a day that exists.
    #[verifier::type_invariant]
    pub open spec fn wf(&self) -> bool {
        is_calendar_date(self.year() as int, self.month() as int, self.day() as int)
    }

    /// The count of days up to and including this one, with 1 January of year 1 as day 1.
    pub open spec fn day_number(&self) -> int {
        day_number(self.year() as int, self.month() as int, self.day() as int)
    }

    /// The date that lies `days` days after this one (before it, where `days` is
    /// negative), if the calendar reaches that far.
    pub open spec fn plus_days(&self, days: int) -> Option<Date> {
        if exists|d: Date| d.wf() && d.day_number() == self.day_number() + days {
            Some(choose|d: Date| d.wf() && d.day_number() == self.day_number() + days)
        } else {
            None
        }
    }

    /// The number of whole weeks between two dates, in either order.
    pub open spec fn weeks_between(&self, other: &Date) -> int {
        if self.day_number() <= other.day_number() {
            (other.day_number() - self.day_number()) / 7
        } else {
            (self.day_number() - other.day_number()) / 7
        }
    }

    /// The canonical text of the date.
    pub open spec fn text(&self) -> Seq<char> {
        date_text(self.year() as int, self.month() as int, self.day() as int)
    }

    /// The day of the week on which the date falls.
    pub open spec fn spec_weekday(&self) -> Weekday {
        weekday_of_day_number(self.day_number())
    }

    /// The date with the given year, month and day, if that day exists; see
    /// [`Date::lemma_from_ymd`].
    pub closed spec fn spec_from_ymd(year: i32, month: u32, day: u32) -> Option<Date> {
        if is_calendar_date(year as int, month as int, day as int) {
            Some(Date { year, month, day })
        } else {
            None
        }
    }

    /// The year of the date. Year 0 is the year before year 1.
    #[verifier::when_used_as_spec(spec_year)]
    pub fn year(&self) -> (r: i32)
        ensures
            r == self.year(),
    {
        self.year
    }

    /// The month of the date, from 1 to 12.
    #[verifier::when_used_as_spec(spec_month)]
    pub fn month(&self) -> (r: u32)
        ensures
            r == self.month(),
            1 <= r <= 12,
    {
        proof {
            use_type_invariant(self);
        }
        self.month
    }

    /// The day of the month, from 1 to 31.
    #[verifier::when_used_as_spec(spec_day)]
    pub fn day(&self) -> (r: u32)
        ensures
            r == self.day(),
            1 <= r <= 31,
    {
        proof {
            use_type_invariant(self);
        }
        self.day
    }

    /// The date with the given year, month and day, if that day exists.
    #[verifier::when_used_as_spec(spec_from_ymd)]
    pub fn from_ymd(year: i32, month: u32, day: u32) -> (r: Option<Date>)
        ensures
            r == Date::from_ymd(year, month, day),
            r is Some <==> is_calendar_date(year as int, month as int, day as int),
            r matches Some(d) ==> d.year() == year && d.month() == month && d.day() == day,
    {
        chrono_date(year, month, day)
    }

    /// There is a date for year, month and day exactly where that day exists, and
    /// it has that year, month and day.
    pub proof fn lemma_from_ymd(year: i32, month: u32, day: u32)
        ensures
            Date::from_ymd(year, month, day) is Some <==> is_calendar_date(
                year as int,
                month as int,
                day as int,
            ),
            Date::from_ymd(year, month, day) matches Some(d) ==> d.wf() && d.year() == year
                && d.month() == month && d.day() == day,
    {
    }

    /// The count of days up to and including this one, with 1 January of year 1
    /// as day 1.
    pub fn num_days_from_ce(&self) -> (r: i32)
        ensures
            r == self.day_number(),
    {
        proof {
            use_type_invariant(self);
            lemma_days_before_month(self.year as int, self.month as int);
        }
        let before = self.year as i64 - 1;
        let leap = self.year % 4 == 0 && (self.year % 100 != 0 || self.year % 400 == 0);
        let months: i64 = match self.month {
            1 => 0,
            2 => 31,
            3 => 59,
            4 => 90,
            5 => 120,
            6 => 151,
            7 => 181,
            8 => 212,
            9 => 243,
            10 => 273,
            11 => 304,
            _ => 334,
        };
        let leap_day: i64 = if leap && self.month > 2 {
            1
        } else {
            0
        };
        let days = 365 * before + floor_div(before, 4) - floor_div(before, 100) + floor_div(
            before,
            400,
        ) + months + leap_day + self.day as i64;
        days as i32
    }

    /// The days of a month, from the first to the last; none where the month
    /// does not exist.
    pub fn days_of_month(year: i32, month: u32) -> (r: Vec<Date>)
        ensures
            r@.len() == (if is_calendar_date(year as int, month as int, 1) {
                days_in_month(year as int, month as int)
            } else {
                0
            }),
            forall|i: int|
                0 <= i < r@.len() ==> (#[trigger] r@[i]).year() == year && r@[i].month() == month
                    && r@[i].day() == i + 1,
    {
        let mut days: Vec<Date> = Vec::new();
        let mut day: u32 = 1;
        while day <= 31
            invariant
                1 <= day <= 32,
                days@.len() == day - 1,
                day > 1 ==> is_calendar_date(year as int, month as int, day - 1),
                forall|i: int|
                    0 <= i < days@.len() ==> (#[trigger] days@[i]).year() == year && days@[i].month()
                        == month && days@[i].day() == i + 1,
            decreases 32 - day,
        {
            match Date::from_ymd(year, month, day) {
                Some(date) => {
                    days.push(date);
                },
                None => {
                    return days;
                },
            }
            day += 1;
        }
        days
    }

    /// The day of the week on which the date falls.
    #[verifier::when_used_as_spec(spec_weekday)]
    pub fn weekday(&self) -> (r: Weekday)
        ensures
            r == self.weekday(),
    {
        proof {
            use_type_invariant(self);
        }
        chrono_weekday(self)
    }

    /// The date `days` days later (earlier, where `days` is negative), or `None`
    /// where the calendar does not reach that far.
    pub fn checked_add_days(&self, days: i64) -> (r: Option<Date>)
        ensures
            r == self.plus_days(days as int),
    {
        proof {
            use_type_invariant(self);
        }
        let r = chrono_add_days(self, days);
        proof {
            match r {
                Some(d) => {
                    let chosen = choose|x: Date| x.wf() && x.day_number() == self.day_number() + days;
                    Date::lemma_same_day_number(d, chosen);
                },
                None => {},
            }
        }
        r
    }

    /// Whether this date comes before the other.
    pub fn is_before(&self, other: &Date) -> (r: bool)
        ensures
            r == (self.day_number() < other.day_number()),
    {
        proof {
            use_type_invariant(self);
            use_type_invariant(other);
            let (y1, m1, d1) = (self.year as int, self.month as int, self.day as int);
            let (y2, m2, d2) = (other.year as int, other.month as int, other.day as int);
            if y1 < y2 || (y1 == y2 && (m1 < m2 || (m1 == m2 && d1 < d2))) {
                lemma_day_number_monotonic(y1, m1, d1, y2, m2, d2);
            } else if y2 < y1 || (y2 == y1 && (m2 < m1 || (m2 == m1 && d2 < d1))) {
                lemma_day_number_monotonic(y2, m2, d2, y1, m1, d1);
            }
        }
        self.year < other.year || (self.year == other.year && (self.month < other.month || (
        self.month == other.month && self.day < other.day)))
    }

    /// The number of whole weeks between this date and the other, in either order.
    pub fn whole_weeks_between(&self, other: &Date) -> (r: u32)
        ensures
            r == self.weeks_between(other),
    {
        proof {
            use_type_invariant(self);
            use_type_invariant(other);
            lemma_day_number_bounds(self.year as int, self.month as int, self.day as int);
            lemma_day_number_bounds(other.year as int, other.month as int, other.day as int);
        }
        let weeks = if self.is_before(other) {
            chrono_weeks_between(self, other)
        } else {
            chrono_weeks_between(other, self)
        };
        weeks as u32
    }

    /// The canonical text of the date.
    pub fn to_string(&self) -> (r: String)
        ensures
            r@ == self.text(),
    {
        proof {
            use_type_invariant(self);
        }
        chrono_date_text(self)
    }

    /// Two dates with the same day number are the same date.
    pub proof fn lemma_same_day_number(a: Date, b: Date)
        requires
            a.wf(),
            b.wf(),
            a.day_number() == b.day_number(),
        ensures
            a == b,
    {
        lemma_day_number_injective(
            a.year as int,
            a.month as int,
            a.day as int,
            b.year as int,
            b.month as int,
            b.day as int,
        );
    }

    /// A date is its year, month and day.
    pub proof fn lemma_same_fields(a: Date, b: Date)
        requires
            a.year() == b.year(),
            a.month() == b.month(),
            a.day() == b.day(),
        ensures
            a == b,
    {
    }
}

/// The quotient rounded down, also where the dividend is negative.
fn floor_div(a: i64, b: i64) -> (r: i64)
    requires
        -1_000_000_000 <= a <= 1_000_000_000,
        0 < b <= 1_000_000,
    ensures
        r == a as int / b as int,
{
    if a >= 0 {
        a / b
    } else {
        let up = (-a + b - 1) / b;
        assert(-up == a as int / b as int) by (nonlinear_arith)
            requires
                a < 0,
                b > 0,
                up == (-a + b - 1) / b as int,
        ;
        -up
    }
}

/// Asks `chrono::NaiveDate::from_ymd_opt` whether the day exists. Claimed of it:
/// it accepts exactly the days of the calendar from [`MIN_YEAR`] to [`MAX_YEAR`],
/// and the date it makes has the year, month and day it was given.
#[verifier::external_body]
fn chrono_date(year: i32, month: u32, day: u32) -> (r: Option<Date>)
    ensures
        r is Some <==> is_calendar_date(year as int, month as int, day as int),
        r matches Some(d) ==> d.year == year && d.month == month && d.day == day,
{
    match NaiveDate::from_ymd_opt(year, month, day) {
        Some(d) => Some(Date { year: d.year(), month: d.month(), day: d.day() }),
        None => None,
    }
}

/// Calls `chrono::Datelike::weekday` on the date, which is handed over through
/// `chrono::NaiveDate::from_ymd_opt`. Claimed of it: it returns the day of the
/// week of the proleptic Gregorian calendar, in which day 1 is a Monday.
#[verifier::external_body]
fn chrono_weekday(date: &Date) -> (r: Weekday)
    requires
        date.wf(),
    ensures
        r == weekday_of_day_number(date.day_number()),
{
    match NaiveDate::from_ymd_opt(date.year, date.month, date.day).unwrap_or_default().weekday() {
        chrono::Weekday::Mon => Weekday::Mon,
        chrono::Weekday::Tue => Weekday::Tue,
        chrono::Weekday::Wed => Weekday::Wed,
        chrono::Weekday::Thu => Weekday::Thu,
        chrono::Weekday::Fri => Weekday::Fri,
        chrono::Weekday::Sat => Weekday::Sat,
        chrono::Weekday::Sun => Weekday::Sun,
    }
}

/// Calls `chrono::NaiveDate::checked_add_signed` with the span of `days` whole
/// days that `chrono::TimeDelta::try_days` makes. Claimed of them: together they
/// return the date whose day number is larger by `days`, and `None` exactly where
/// no date that a [`Date`] can hold has that day number.
#[verifier::external_body]
fn chrono_add_days(date: &Date, days: i64) -> (r: Option<Date>)
    requires
        date.wf(),
    ensures
        match r {
            Some(d) => d.wf() && d.day_number() == date.day_number() + days,
            None => forall|d: Date| d.wf() ==> d.day_number() != date.day_number() + days,
        },
{
    let start = NaiveDate::from_ymd_opt(date.year, date.month, date.day)?;
    let span = TimeDelta::try_days(days)?;
    let d = start.checked_add_signed(span)?;
    Some(Date { year: d.year(), month: d.month(), day: d.day() })
}

/// Calls `chrono::NaiveDate::signed_duration_since` and, on the span it returns,
/// `chrono::TimeDelta::num_weeks`. Claimed of them: the span between two dates is
/// the difference of their day numbers, and its number of weeks is that
/// difference divided by seven.
#[verifier::external_body]
fn chrono_weeks_between(earlier: &Date, later: &Date) -> (r: i64)
    requires
        earlier.wf(),
        later.wf(),
        earlier.day_number() <= later.day_number(),
    ensures
        r == (later.day_number() - earlier.day_number()) / 7,
{
    let from = NaiveDate::from_ymd_opt(earlier.year, earlier.month, earlier.day).unwrap_or_default();
    let to = NaiveDate::from_ymd_opt(later.year, later.month, later.day).unwrap_or_default();
    to.signed_duration_since(from).num_weeks()
}

/// Calls `to_string` on the `chrono::NaiveDate`, which goes through its `Display`.
/// Claimed of it: it writes the year as [`year_text`] says, then month and day in
/// two digits each, with hyphens between them.
#[verifier::external_body]
fn chrono_date_text(date: &Date) -> (r: String)
    requires
        date.wf(),
    ensures
        r@ == date_text(date.year as int, date.month as int, date.day as int),
{
    NaiveDate::from_ymd_opt(date.year, date.month, date.day).unwrap_or_default().to_string()
}

/// The days before each month, written out.
pub proof fn lemma_days_before_month(year: int, month: int)
    requires
        1 <= month <= 13,
    ensures
        days_before_month(year, month) == (if month == 1 {
            0int
        } else if month == 2 {
            31
        } else {
            let leap: int = if is_leap_year(year) { 1 } else { 0 };
            leap + (if month == 3 {
                59int
            } else if month == 4 {
                90
            } else if month == 5 {
                120
            } else if month == 6 {
                151
            } else if month == 7 {
                181
            } else if month == 8 {
                212
            } else if month == 9 {
                243
            } else if month == 10 {
                273
            } else if month == 11 {
                304
            } else if month == 12 {
                334
            } else {
                365
            })
        }),
{
    reveal_with_fuel(days_before_month, 14);
}

/// Going from one number to the next, the quotient by `k` grows by one exactly
/// where `k` divides the larger number.
proof fn lemma_quotient_step(y: int, k: int)
    requires
        k > 0,
    ensures
        y / k - (y - 1) / k == (if y % k == 0 {
            1int
        } else {
            0
        }),
{
    vstd::arithmetic::div_mod::lemma_fundamental_div_mod(y, k);
    vstd::arithmetic::div_mod::lemma_fundamental_div_mod(y - 1, k);
    vstd::arithmetic::div_mod::lemma_mod_bound(y, k);
    vstd::arithmetic::div_mod::lemma_mod_bound(y - 1, k);
    let q1 = y / k;
    let q0 = (y - 1) / k;
    let r1 = y % k;
    let r0 = (y - 1) % k;
    assert(k * q1 + r1 == k * q0 + r0 + 1);
    assert(k * (q1 - q0) == r0 + 1 - r1) by (nonlinear_arith)
        requires
            k * q1 + r1 == k * q0 + r0 + 1,
    ;
    assert(q1 - q0 == 0 || q1 - q0 == 1) by (nonlinear_arith)
        requires
            k * (q1 - q0) == r0 + 1 - r1,
            0 <= r0 < k,
            0 <= r1 < k,
            k > 0,
    ;
    if q1 - q0 == 1 {
        assert(k * 1 == r0 + 1 - r1);
    } else {
        assert(k * 0 == r0 + 1 - r1);
    }
}

/// A year has 365 days, a leap year one more.
pub proof fn lemma_year_length(year: int)
    ensures
        days_before_year(year + 1) - days_before_year(year) == (if is_leap_year(year) {
            366int
        } else {
            365
        }),
        days_before_month(year, 13) == days_before_year(year + 1) - days_before_year(year),
{
    lemma_quotient_step(year, 4);
    lemma_quotient_step(year, 100);
    lemma_quotient_step(year, 400);
    assert(year % 400 == 0 ==> year % 100 == 0 && year % 4 == 0);
    assert(year % 100 == 0 ==> year % 4 == 0);
    assert(days_before_year(year + 1) - days_before_year(year) == 365 + (if is_leap_year(year) {
        1int
    } else {
        0
    }));
    lemma_days_before_month(year, 13);
}

/// Later years start later.
pub proof fn lemma_days_before_year_monotonic(a: int, b: int)
    requires
        a <= b,
    ensures
        days_before_year(a) + 365 * (b - a) <= days_before_year(b),
    decreases b - a,
{
    if a < b {
        lemma_days_before_year_monotonic(a, b - 1);
        lemma_year_length(b - 1);
    }
}

/// Within one year, later months start later.
pub proof fn lemma_days_before_month_monotonic(year: int, a: int, b: int)
    requires
        1 <= a <= b <= 13,
    ensures
        days_before_month(year, a) + 28 * (b - a) <= days_before_month(year, b),
{
    lemma_days_before_month(year, a);
    lemma_days_before_month(year, b);
}

/// Calendar order and day-number order agree: of two dates, the one that comes
/// first by year, then month, then day has the smaller day number.
pub proof fn lemma_day_number_monotonic(y1: int, m1: int, d1: int, y2: int, m2: int, d2: int)
    requires
        is_calendar_date(y1, m1, d1),
        is_calendar_date(y2, m2, d2),
        y1 < y2 || (y1 == y2 && (m1 < m2 || (m1 == m2 && d1 < d2))),
    ensures
        day_number(y1, m1, d1) < day_number(y2, m2, d2),
{
    lemma_days_before_month(y1, m1);
    lemma_days_before_month(y2, m2);
    if y1 < y2 {
        lemma_year_length(y1);
        lemma_days_before_year_monotonic(y1 + 1, y2);
    }
}

/// Two calendar dates with the same day number are the same date.
pub proof fn lemma_day_number_injective(y1: int, m1: int, d1: int, y2: int, m2: int, d2: int)
    requires
        is_calendar_date(y1, m1, d1),
        is_calendar_date(y2, m2, d2),
        day_number(y1, m1, d1) == day_number(y2, m2, d2),
    ensures
        y1 == y2 && m1 == m2 && d1 == d2,
{
    if y1 < y2 || (y1 == y2 && (m1 < m2 || (m1 == m2 && d1 < d2))) {
        lemma_day_number_monotonic(y1, m1, d1, y2, m2, d2);
    } else if y2 < y1 || (y2 == y1 && (m2 < m1 || (m2 == m1 && d2 < d1))) {
        lemma_day_number_monotonic(y2, m2, d2, y1, m1, d1);
    }
}

/// The day numbers of all calendar dates lie well inside the 32-bit range.
pub proof fn lemma_day_number_bounds(year: int, month: int, day: int)
    requires
        is_calendar_date(year, month, day),
    ensures
        -100_000_000 < day_number(year, month, day) < 100_000_000,
{
    lemma_days_before_month(year, month);
}

/// Moving a date by no days leaves it where it is.
pub proof fn law_plus_no_days(date: Date)
    requires
        date.wf(),
    ensures
        date.plus_days(0) == Some(date),
{
    if date.plus_days(0) is Some {
        Date::lemma_same_day_number(date.plus_days(0)->0, date);
    }
}

/// Moving a date in two steps is moving it by the sum of the two.
pub proof fn law_plus_days_adds_up(date: Date, first: int, second: int)
    requires
        date.plus_days(first) is Some,
        date.plus_days(first)->0.plus_days(second) is Some,
    ensures
        date.plus_days(first + second) == date.plus_days(first)->0.plus_days(second),
{
    let middle = date.plus_days(first)->0;
    let last = middle.plus_days(second)->0;
    assert(last.wf() && last.day_number() == date.day_number() + (first + second));
    Date::lemma_same_day_number(date.plus_days(first + second)->0, last);
}

/// A week later it is the same day of the week.
pub proof fn law_weekday_repeats(date: Date)
    requires
        date.plus_days(7) is Some,
    ensures
        date.plus_days(7)->0.weekday() == date.weekday(),
{
}

/// The order of dates is that of their places in time: a date moved forward
/// comes later, by as many days as it was moved.
pub proof fn law_later_date_is_after(date: Date, days: int)
    requires
        date.plus_days(days) is Some,
    ensures
        date.plus_days(days)->0.day_number() - date.day_number() == days,
        days > 0 ==> date.day_number() < date.plus_days(days)->0.day_number(),
        days >= 0 ==> date.weeks_between(&date.plus_days(days)->0) == days / 7,
{
}

} // verus!
