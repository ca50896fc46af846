//! The Gregorian calendar, and numbers written in decimal digits.

use crate::text;
use vstd::prelude::*;

verus! {

/// A day of the proleptic Gregorian calendar.
pub struct Date {
    pub year: int,
    pub month: int,
    pub day: int,
}

/// Whether a year has a 29th of February.
pub open spec fn is_leap_year(year: int) -> bool {
    year % 4 == 0 && (year % 100 != 0 || year % 400 == 0)
}

/// How many days a month has.
pub open spec fn days_in_month(year: int, month: int) -> int {
    if month == 2 {
        if is_leap_year(year) {
            29
        } else {
            28
        }
    } else if month == 4 || month == 6 || month == 9 || month == 11 {
        30
    } else {
        31
    }
}

/// How many days of the year have passed when a month begins.
pub open spec fn days_before_month(year: int, month: int) -> int
    decreases month,
{
    if month <= 1 {
        0
    } else {
        days_before_month(year, month - 1) + days_in_month(year, month - 1)
    }
}

/// How many days lie between the first day of year 1 and that of `year`.
pub open spec fn days_before_year(year: int) -> int {
    365 * (year - 1) + (year - 1) / 4 - (year - 1) / 100 + (year - 1) / 400
}

/// The date exists.
pub open spec fn is_date(date: Date) -> bool {
    &&& 1 <= date.month <= 12
    &&& 1 <= date.day <= days_in_month(date.year, date.month)
}

/// The number of a day, with the first of January 1970 as day 0.
pub open spec fn day_number(date: Date) -> int {
    days_before_year(date.year) + days_before_month(date.year, date.month) + date.day - 1
        - days_before_year(1970)
}

/// The one date that has a given number.
pub open spec fn date_of(day: int) -> Date {
    choose|date: Date| is_date(date) && day_number(date) == day
}

/// The dates in the order of the calendar.
pub open spec fn date_lt(a: Date, b: Date) -> bool {
    ||| a.year < b.year
    ||| a.year == b.year && a.month < b.month
    ||| a.year == b.year && a.month == b.month && a.day < b.day
}

/// How long the year is.
pub open spec fn days_in_year(year: int) -> int {
    if is_leap_year(year) {
        366
    } else {
        365
    }
}

proof fn lemma_month_fits(year: int, month: int)
    requires
        1 <= month <= 12,
    ensures
        0 <= days_before_month(year, month),
        days_before_month(year, month) + days_in_month(year, month) <= days_in_year(year),
{
    reveal_with_fuel(days_before_month, 13);
}

proof fn lemma_months_follow(year: int, m: int, n: int)
    requires
        1 <= m < n <= 12,
    ensures
        days_before_month(year, m) + days_in_month(year, m) <= days_before_month(year, n),
{
    reveal_with_fuel(days_before_month, 13);
}

proof fn lemma_fourth_year(year: int)
    ensures
        year / 4 - (year - 1) / 4 == if year % 4 == 0 {
            1int
        } else {
            0int
        },
{
}

proof fn lemma_hundredth_year(year: int)
    ensures
        year / 100 - (year - 1) / 100 == if year % 100 == 0 {
            1int
        } else {
            0int
        },
{
}

proof fn lemma_four_hundredth_year(year: int)
    ensures
        year / 400 - (year - 1) / 400 == if year % 400 == 0 {
            1int
        } else {
            0int
        },
{
}

proof fn lemma_centuries(year: int)
    ensures
        year % 100 == 0 ==> year % 4 == 0,
        year % 400 == 0 ==> year % 100 == 0,
{
}

#[verifier::spinoff_prover]
proof fn lemma_year_length(year: int)
    ensures
        days_before_year(year + 1) == days_before_year(year) + days_in_year(year),
{
    lemma_fourth_year(year);
    lemma_hundredth_year(year);
    lemma_four_hundredth_year(year);
    lemma_centuries(year);
    let a = year / 4 - (year - 1) / 4;
    let b = year / 100 - (year - 1) / 100;
    let c = year / 400 - (year - 1) / 400;
    assert(days_before_year(year + 1) - days_before_year(year) == 365 + a - b + c);
}

/// A later date has a greater number.
pub proof fn lemma_day_number_increases(a: Date, b: Date)
    requires
        is_date(a),
        is_date(b),
        date_lt(a, b),
    ensures
        day_number(a) < day_number(b),
{
    if a.year == b.year {
        if a.month < b.month {
            lemma_months_follow(a.year, a.month, b.month);
        }
    } else {
        lemma_month_fits(a.year, a.month);
        lemma_month_fits(b.year, b.month);
        lemma_year_length(a.year);
        lemma_years_increase(a.year + 1, b.year);
    }
}

proof fn lemma_years_increase(a: int, b: int)
    requires
        a <= b,
    ensures
        days_before_year(a) <= days_before_year(b),
    decreases b - a,
{
    if a < b {
        lemma_years_increase(a, b - 1);
        lemma_year_length(b - 1);
    }
}

/// No two dates have the same number.
pub proof fn lemma_date_is_unique(a: Date, b: Date)
    requires
        is_date(a),
        is_date(b),
        day_number(a) == day_number(b),
    ensures
        a == b,
{
    if date_lt(a, b) {
        lemma_day_number_increases(a, b);
    } else if date_lt(b, a) {
        lemma_day_number_increases(b, a);
    }
}

spec fn next_date(date: Date) -> Date {
    if date.day < days_in_month(date.year, date.month) {
        Date { day: date.day + 1, ..date }
    } else if date.month < 12 {
        Date { year: date.year, month: date.month + 1, day: 1 }
    } else {
        Date { year: date.year + 1, month: 1, day: 1 }
    }
}

spec fn previous_date(date: Date) -> Date {
    if date.day > 1 {
        Date { day: date.day - 1, ..date }
    } else if date.month > 1 {
        Date {
            year: date.year,
            month: date.month - 1,
            day: days_in_month(date.year, date.month - 1),
        }
    } else {
        Date { year: date.year - 1, month: 12, day: 31 }
    }
}

proof fn lemma_neighbours(date: Date)
    requires
        is_date(date),
    ensures
        is_date(next_date(date)),
        day_number(next_date(date)) == day_number(date) + 1,
        is_date(previous_date(date)),
        day_number(previous_date(date)) == day_number(date) - 1,
{
    reveal_with_fuel(days_before_month, 13);
    lemma_year_length(date.year);
    lemma_year_length(date.year - 1);
}

/// Every day has a date.
pub proof fn lemma_date_of(day: int)
    ensures
        is_date(date_of(day)),
        day_number(date_of(day)) == day,
    decreases
            if day < 0 {
                -day
            } else {
                day
            },
{
    if day == 0 {
        let epoch = Date { year: 1970, month: 1, day: 1 };
        assert(is_date(epoch));
        assert(day_number(epoch) == 0);
    } else if day > 0 {
        lemma_date_of(day - 1);
        lemma_neighbours(date_of(day - 1));
        let date = next_date(date_of(day - 1));
        assert(is_date(date) && day_number(date) == day);
    } else {
        lemma_date_of(day + 1);
        lemma_neighbours(date_of(day + 1));
        let date = previous_date(date_of(day + 1));
        assert(is_date(date) && day_number(date) == day);
    }
}

/// An earlier day has the earlier date.
pub proof fn lemma_date_of_increases(a: int, b: int)
    requires
        a < b,
    ensures
        date_lt(date_of(a), date_of(b)),
{
    lemma_date_of(a);
    lemma_date_of(b);
    if date_lt(date_of(b), date_of(a)) {
        lemma_day_number_increases(date_of(b), date_of(a));
    }
}

/// The character of a decimal digit.
pub open spec fn digit(d: int) -> char {
    if d == 0 {
        '0'
    } else if d == 1 {
        '1'
    } else if d == 2 {
        '2'
    } else if d == 3 {
        '3'
    } else if d == 4 {
        '4'
    } else if d == 5 {
        '5'
    } else if d == 6 {
        '6'
    } else if d == 7 {
        '7'
    } else if d == 8 {
        '8'
    } else {
        '9'
    }
}

/// `n` in decimal, with zeros in front up to `width` digits.
pub open spec fn padded(n: nat, width: nat) -> Seq<char>
    decreases n, width,
{
    if n == 0 && width == 0 {
        Seq::empty()
    } else if width == 0 {
        padded(n / 10, 0).push(digit((n % 10) as int))
    } else {
        padded(n / 10, (width - 1) as nat).push(digit((n % 10) as int))
    }
}

/// The smallest number that has more than `width` digits.
pub open spec fn power_of_ten(width: nat) -> nat
    decreases width,
{
    if width == 0 {
        1
    } else {
        10 * power_of_ten((width - 1) as nat)
    }
}

/// A number that fits takes `width` digits, and digits only.
pub proof fn lemma_padded(n: nat, width: nat)
    requires
        n < power_of_ten(width),
    ensures
        padded(n, width).len() == width,
        forall|i: int|
            0 <= i < width ==> '0' as int <= #[trigger] padded(n, width)[i] as int <= '9' as int,
    decreases width,
{
    if width > 0 {
        lemma_padded(n / 10, (width - 1) as nat);
    }
}

/// Of two numbers that fit, the smaller is written before the greater.
pub proof fn lemma_padded_increases(a: nat, b: nat, width: nat)
    requires
        a < b < power_of_ten(width),
    ensures
        text::text_lt(padded(a, width), padded(b, width)),
    decreases width,
{
    let less = (width - 1) as nat;
    lemma_padded(a / 10, less);
    lemma_padded(b / 10, less);
    let front_a = padded(a / 10, less);
    let front_b = padded(b / 10, less);
    assert(padded(a, width) == front_a.push(digit((a % 10) as int)));
    assert(padded(b, width) == front_b.push(digit((b % 10) as int)));
    if a / 10 < b / 10 {
        lemma_padded_increases(a / 10, b / 10, less);
        let i = choose|i: int| text::less_at(front_a, front_b, i);
        assert(text::less_at(padded(a, width), padded(b, width), i));
    } else {
        assert(a % 10 < b % 10);
        assert(text::less_at(padded(a, width), padded(b, width), less as int));
    }
}

} // verus!
