//! The date of a response: a moment, counted in seconds since the start
//! of 1970 in universal time, written as HTTP writes dates, such as
//! `Thu, 01 Jan 1970 00:00:00 GMT`.

use crate::decimal::digit_char;
use vstd::prelude::*;
use vstd::string::*;

verus! {

/// The seconds of a day.
pub const DAY: u64 = 86400;

/// The first moment that has no date of four-digit year: the start of the
/// year 10000.
pub const END_OF_DATES: u64 = 253402300800;

/// Whether a year has a 29th of February.
pub open spec fn is_leap(year: int) -> bool {
    year % 4 == 0 && (year % 100 != 0 || year % 400 == 0)
}

/// How many days a year has.
pub open spec fn days_in_year(year: int) -> int {
    if is_leap(year) {
        366
    } else {
        365
    }
}

/// How many days a month has; months count from 1.
pub open spec fn days_in_month(year: int, month: int) -> int {
    if month == 2 {
        if is_leap(year) {
            29
        } else {
            28
        }
    } else if month == 4 || month == 6 || month == 9 || month == 11 {
        30
    } else {
        31
    }
}

/// How many days lie between the start of 1970 and the start of a year.
pub open spec fn days_before_year(year: int) -> int
    decreases year - 1970,
{
    if year <= 1970 {
        0
    } else {
        days_before_year(year - 1) + days_in_year(year - 1)
    }
}

/// How many days of a year lie before the start of a month.
pub open spec fn days_before_month(year: int, month: int) -> int
    decreases month,
{
    if month <= 1 {
        0
    } else {
        days_before_month(year, month - 1) + days_in_month(year, month - 1)
    }
}

/// A day of the calendar.
pub struct Date {
    pub year: u64,
    pub month: u64,
    pub day: u64,
}

impl Date {
    /// Whether the date exists, in 1970 or later.
    pub open spec fn valid(self) -> bool {
        &&& 1970 <= self.year
        &&& 1 <= self.month <= 12
        &&& 1 <= self.day <= days_in_month(self.year as int, self.month as int)
    }

    /// How many days lie between the start of 1970 and the date.
    pub open spec fn day_number(self) -> int {
        days_before_year(self.year as int) + days_before_month(
            self.year as int,
            self.month as int,
        ) + self.day - 1
    }
}

/// A year has as many days as its months have together.
proof fn lemma_months_fill_the_year(year: int)
    ensures
        days_before_month(year, 13) == days_in_year(year),
{
    reveal_with_fuel(days_before_month, 14);
}

/// Whether a year has a 29th of February.
fn leap(year: u64) -> (leap: bool)
    ensures
        leap == is_leap(year as int),
{
    year % 4 == 0 && (year % 100 != 0 || year % 400 == 0)
}

/// How many days a month has.
fn month_length(year: u64, month: u64) -> (days: u64)
    ensures
        days == days_in_month(year as int, month as int),
{
    if month == 2 {
        if leap(year) {
            29
        } else {
            28
        }
    } else if month == 4 || month == 6 || month == 9 || month == 11 {
        30
    } else {
        31
    }
}

/// The date of the day that lies `days` days after the first of January
/// 1970, for days before the year 10000.
pub fn date_of_day(days: u64) -> (date: Date)
    requires
        days < END_OF_DATES / DAY,
    ensures
        date.valid(),
        date.year < 10000,
        date.day_number() == days,
{
    let mut year: u64 = 1970 + days / 366;
    proof {
        lemma_days_before_year(year as int);
    }
    let leap_days: u64 = (year - 1) / 4 - (year - 1) / 100 + (year - 1) / 400 - 477;
    let mut left: u64 = days - (365 * (year - 1970) + leap_days);
    loop
        invariant
            1970 <= year,
            days_before_year(year as int) + left == days,
            days < END_OF_DATES / DAY,
        ensures
            left < days_in_year(year as int),
        decreases left,
    {
        let length: u64 = if leap(year) {
            366
        } else {
            365
        };
        if left < length {
            break;
        }
        assert(year < 1970 + days) by {
            lemma_days_before_year(year as int);
        }
        left -= length;
        year += 1;
    }
    let mut month: u64 = 1;
    proof {
        lemma_months_fill_the_year(year as int);
        lemma_days_before_year(10000);
        if year >= 10000 {
            lemma_years_in_order(10000, year as int);
        }
    }
    loop
        invariant
            1 <= month <= 12,
            1970 <= year < 10000,
            left < days_before_month(year as int, 13) - days_before_month(year as int, month as int),
            days_before_year(year as int) + days_before_month(year as int, month as int) + left
                == days,
        ensures
            left < days_in_month(year as int, month as int),
        decreases 12 - month,
    {
        proof {
            lemma_months_fill_the_year(year as int);
            if month == 12 {
                assert(days_before_month(year as int, 13) == days_before_month(year as int, 12)
                    + days_in_month(year as int, 12));
            }
        }
        let length = month_length(year, month);
        if left < length {
            break;
        }
        left -= length;
        month += 1;
    }
    Date { year, month, day: left + 1 }
}

/// The days before a year, counted without going through the years: 365
/// for each year since 1970, and one more for each leap year among them.
pub proof fn lemma_days_before_year(year: int)
    requires
        1970 <= year,
    ensures
        days_before_year(year) == 365 * (year - 1970) + ((year - 1) / 4 - (year - 1) / 100 + (year
            - 1) / 400) - 477,
        365 * (year - 1970) <= days_before_year(year) <= 366 * (year - 1970),
    decreases year - 1970,
{
    if year > 1970 {
        lemma_days_before_year(year - 1);
    }
}

/// A later year begins later.
proof fn lemma_years_in_order(first: int, second: int)
    requires
        first <= second,
    ensures
        days_before_year(first) <= days_before_year(second),
    decreases second - first,
{
    if first < second {
        lemma_years_in_order(first, second - 1);
    }
}

/// A later month of a year begins later, and no month goes beyond the
/// year.
proof fn lemma_months_in_order(year: int, first: int, second: int)
    requires
        1 <= first <= second <= 13,
    ensures
        days_before_month(year, first) <= days_before_month(year, second),
        days_before_month(year, second) <= days_in_year(year),
    decreases second - first,
{
    reveal_with_fuel(days_before_month, 14);
    if first < second {
        lemma_months_in_order(year, first, second - 1);
    }
}

/// No two dates share a day: a day number names one date.
pub proof fn lemma_date_is_unique(one: Date, other: Date)
    requires
        one.valid(),
        other.valid(),
        one.day_number() == other.day_number(),
    ensures
        one == other,
{
    let (y, m) = (one.year as int, one.month as int);
    let (z, n) = (other.year as int, other.month as int);
    lemma_months_in_order(y, m, m + 1);
    lemma_months_in_order(y, m + 1, 13);
    lemma_months_in_order(z, n, n + 1);
    lemma_months_in_order(z, n + 1, 13);
    lemma_months_in_order(y, 1, m);
    lemma_months_in_order(z, 1, n);
    if y < z {
        lemma_years_in_order(y + 1, z);
    } else if z < y {
        lemma_years_in_order(z + 1, y);
    } else if m < n {
        lemma_months_in_order(y, m + 1, n);
    } else if n < m {
        lemma_months_in_order(y, n + 1, m);
    }
}

/// The name of a day of the week, counted from Thursday, the day on which
/// 1970 began.
pub open spec fn weekday_name(since_thursday: int) -> Seq<char> {
    if since_thursday == 0 {
        "Thu"@
    } else if since_thursday == 1 {
        "Fri"@
    } else if since_thursday == 2 {
        "Sat"@
    } else if since_thursday == 3 {
        "Sun"@
    } else if since_thursday == 4 {
        "Mon"@
    } else if since_thursday == 5 {
        "Tue"@
    } else {
        "Wed"@
    }
}

/// The name of a month; months count from 1.
pub open spec fn month_name(month: int) -> Seq<char> {
    if month == 1 {
        "Jan"@
    } else if month == 2 {
        "Feb"@
    } else if month == 3 {
        "Mar"@
    } else if month == 4 {
        "Apr"@
    } else if month == 5 {
        "May"@
    } else if month == 6 {
        "Jun"@
    } else if month == 7 {
        "Jul"@
    } else if month == 8 {
        "Aug"@
    } else if month == 9 {
        "Sep"@
    } else if month == 10 {
        "Oct"@
    } else if month == 11 {
        "Nov"@
    } else {
        "Dec"@
    }
}

/// A number under 100 in two digits.
pub open spec fn two_digits(n: int) -> Seq<char> {
    seq![digit_char((n / 10) as nat), digit_char((n % 10) as nat)]
}

/// A number under 10000 in four digits.
pub open spec fn four_digits(n: int) -> Seq<char> {
    two_digits(n / 100) + two_digits(n % 100)
}

/// A date and a time of day as HTTP writes them.
pub open spec fn date_text(date: Date, weekday: int, second_of_day: int) -> Seq<char> {
    weekday_name(weekday) + ", "@ + two_digits(date.day as int) + " "@ + month_name(
        date.month as int,
    ) + " "@ + four_digits(date.year as int) + " "@ + two_digits(second_of_day / 3600) + ":"@
        + two_digits(second_of_day / 60 % 60) + ":"@ + two_digits(second_of_day % 60) + " GMT"@
}

/// The name of a day of the week, counted from Thursday.
fn weekday_label(since_thursday: u64) -> (name: &'static str)
    ensures
        name@ == weekday_name(since_thursday as int),
{
    if since_thursday == 0 {
        "Thu"
    } else if since_thursday == 1 {
        "Fri"
    } else if since_thursday == 2 {
        "Sat"
    } else if since_thursday == 3 {
        "Sun"
    } else if since_thursday == 4 {
        "Mon"
    } else if since_thursday == 5 {
        "Tue"
    } else {
        "Wed"
    }
}

/// The name of a month.
fn month_label(month: u64) -> (name: &'static str)
    ensures
        name@ == month_name(month as int),
{
    if month == 1 {
        "Jan"
    } else if month == 2 {
        "Feb"
    } else if month == 3 {
        "Mar"
    } else if month == 4 {
        "Apr"
    } else if month == 5 {
        "May"
    } else if month == 6 {
        "Jun"
    } else if month == 7 {
        "Jul"
    } else if month == 8 {
        "Aug"
    } else if month == 9 {
        "Sep"
    } else if month == 10 {
        "Oct"
    } else if month == 11 {
        "Nov"
    } else {
        "Dec"
    }
}

/// The digit of a number under 10.
fn digit(n: u64) -> (text: &'static str)
    requires
        n < 10,
    ensures
        text@ == seq![digit_char(n as nat)],
{
    proof {
        reveal_strlit("0");
        reveal_strlit("1");
        reveal_strlit("2");
        reveal_strlit("3");
        reveal_strlit("4");
        reveal_strlit("5");
        reveal_strlit("6");
        reveal_strlit("7");
        reveal_strlit("8");
        reveal_strlit("9");
    }
    let text = if n == 0 {
        "0"
    } else if n == 1 {
        "1"
    } else if n == 2 {
        "2"
    } else if n == 3 {
        "3"
    } else if n == 4 {
        "4"
    } else if n == 5 {
        "5"
    } else if n == 6 {
        "6"
    } else if n == 7 {
        "7"
    } else if n == 8 {
        "8"
    } else {
        "9"
    };
    assert(text@ =~= seq![digit_char(n as nat)]);
    text
}

/// Appends a number under 100 in two digits.
fn push_two_digits(text: &mut String, n: u64)
    requires
        n < 100,
    ensures
        final(text)@ == old(text)@ + two_digits(n as int),
{
    text.append(digit(n / 10));
    text.append(digit(n % 10));
    assert(text@ =~= old(text)@ + two_digits(n as int));
}

/// The date and time of the moment `secs` seconds after the start of
/// 1970, as HTTP writes them; `None` from the year 10000 on, which HTTP
/// cannot write.
pub fn http_date(secs: u64) -> (text: Option<String>)
    ensures
        text is Some <==> secs < END_OF_DATES,
        text matches Some(t) ==> exists|date: Date|
            {
                &&& date.valid()
                &&& date.day_number() == secs / DAY
                &&& t@ == #[trigger] date_text(
                    date,
                    (secs / DAY % 7) as int,
                    (secs % DAY) as int,
                )
            },
{
    if secs >= END_OF_DATES {
        return None;
    }
    let days = secs / DAY;
    let second_of_day = secs % DAY;
    let date = date_of_day(days);
    let mut text = weekday_label(days % 7).to_owned();
    text.append(", ");
    push_two_digits(&mut text, date.day);
    text.append(" ");
    text.append(month_label(date.month));
    text.append(" ");
    push_two_digits(&mut text, date.year / 100);
    push_two_digits(&mut text, date.year % 100);
    text.append(" ");
    push_two_digits(&mut text, second_of_day / 3600);
    text.append(":");
    push_two_digits(&mut text, second_of_day / 60 % 60);
    text.append(":");
    push_two_digits(&mut text, second_of_day % 60);
    text.append(" GMT");
    assert(text@ =~= date_text(date, (days % 7) as int, second_of_day as int));
    Some(text)
}

} // verus!
