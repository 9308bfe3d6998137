//! The proleptic Gregorian calendar: from a count of days to a date.

use vstd::prelude::*;

verus! {

/// Every fourth year is a leap year, except the centuries that four hundred does not divide.
pub open spec fn is_leap_year(year: int) -> bool {
    year % 4 == 0 && (year % 100 != 0 || year % 400 == 0)
}

pub open spec fn days_in_year(year: int) -> int {
    if is_leap_year(year) {
        366
    } else {
        365
    }
}

pub open spec fn days_in_month(year: int, month: int) -> int {
    if month == 2 {
        if is_leap_year(year) {
            29
        } else {
            28
        }
    } else if month == 4 || month == 6 || month == 9 || month == 11 {
        30
    } else {
        31
    }
}

pub open spec fn valid_date(year: int, month: int, day: int) -> bool {
    1 <= month <= 12 && 1 <= day <= days_in_month(year, month)
}

/// Days from the first of January of year 0 to the first of January of `year`.
pub open spec fn days_before_year(year: int) -> int {
    365 * year + (year + 3) / 4 - (year + 99) / 100 + (year + 399) / 400
}

/// Days from the first of January to the first of `month` in the same year.
pub open spec fn days_before_month(year: int, month: int) -> int
    decreases month,
{
    if month <= 1 {
        0
    } else {
        days_before_month(year, month - 1) + days_in_month(year, month - 1)
    }
}

/// Days from 1970-01-01 to the given date, negative before it.
pub open spec fn day_number(year: int, month: int, day: int) -> int {
    days_before_year(year) - days_before_year(1970) + days_before_month(year, month) + day - 1
}

/// The day after the given date.
pub open spec fn next_day(date: (int, int, int)) -> (int, int, int) {
    if date.2 < days_in_month(date.0, date.1) {
        (date.0, date.1, date.2 + 1)
    } else if date.1 < 12 {
        (date.0, date.1 + 1, 1)
    } else {
        (date.0 + 1, 1, 1)
    }
}

/// A year takes as many days as it has: the next one starts that much later.
pub proof fn days_before_next_year(year: int)
    ensures
        days_before_year(year + 1) == days_before_year(year) + days_in_year(year),
{
    assert((year + 4) / 4 == (year + 3) / 4 + (if year % 4 == 0 { 1int } else { 0 }));
    assert((year + 100) / 100 == (year + 99) / 100 + (if year % 100 == 0 { 1int } else { 0 }));
    assert((year + 400) / 400 == (year + 399) / 400 + (if year % 400 == 0 { 1int } else { 0 }));
    assert(year % 400 == 0 ==> year % 100 == 0);
    assert(year % 100 == 0 ==> year % 4 == 0);
}

/// The lengths of the months before a month add up to the days before it.
proof fn days_before_month_values(year: int)
    ensures
        days_before_month(year, 1) == 0,
        days_before_month(year, 2) == 31,
        ({
            let feb = days_in_month(year, 2);
            &&& days_before_month(year, 3) == 31 + feb
            &&& days_before_month(year, 4) == 62 + feb
            &&& days_before_month(year, 5) == 92 + feb
            &&& days_before_month(year, 6) == 123 + feb
            &&& days_before_month(year, 7) == 153 + feb
            &&& days_before_month(year, 8) == 184 + feb
            &&& days_before_month(year, 9) == 215 + feb
            &&& days_before_month(year, 10) == 245 + feb
            &&& days_before_month(year, 11) == 276 + feb
            &&& days_before_month(year, 12) == 306 + feb
            &&& days_before_month(year, 13) == 337 + feb
        }),
{
    reveal_with_fuel(days_before_month, 14);
}

/// One day later is one more on the count.
pub proof fn next_day_counts_one(year: int, month: int, day: int)
    requires
        valid_date(year, month, day),
    ensures
        ({
            let next = next_day((year, month, day));
            &&& valid_date(next.0, next.1, next.2)
            &&& day_number(next.0, next.1, next.2) == day_number(year, month, day) + 1
        }),
{
    days_before_month_values(year);
    days_before_month_values(year + 1);
    days_before_next_year(year);
}

/// Later years start later.
proof fn days_before_year_grows(earlier: int, later: int)
    requires
        earlier <= later,
    ensures
        days_before_year(earlier) <= days_before_year(later),
    decreases later - earlier,
{
    if earlier < later {
        days_before_next_year(later - 1);
        days_before_year_grows(earlier, later - 1);
    }
}

/// A valid date lies within its year.
proof fn day_number_within_year(year: int, month: int, day: int)
    requires
        valid_date(year, month, day),
    ensures
        days_before_year(year) - days_before_year(1970) <= day_number(year, month, day),
        day_number(year, month, day) < days_before_year(year + 1) - days_before_year(1970),
{
    days_before_month_values(year);
    days_before_next_year(year);
}

/// A date on or after 1970-01-01 has a year of at least 1970.
pub proof fn year_from_epoch_on(year: int, month: int, day: int)
    requires
        valid_date(year, month, day),
        day_number(year, month, day) >= 0,
    ensures
        year >= 1970,
{
    day_number_within_year(year, month, day);
    if year < 1970 {
        days_before_year_grows(year + 1, 1970);
    }
}

/// A count of days is the count of one date only.
pub proof fn day_number_names_one_date(a: (int, int, int), b: (int, int, int))
    requires
        valid_date(a.0, a.1, a.2),
        valid_date(b.0, b.1, b.2),
        day_number(a.0, a.1, a.2) == day_number(b.0, b.1, b.2),
    ensures
        a == b,
{
    day_number_within_year(a.0, a.1, a.2);
    day_number_within_year(b.0, b.1, b.2);
    if a.0 < b.0 {
        days_before_year_grows(a.0 + 1, b.0);
    }
    if b.0 < a.0 {
        days_before_year_grows(b.0 + 1, a.0);
    }
    days_before_month_values(a.0);
}

/// The dates of consecutive counts are consecutive days.
pub proof fn consecutive_counts_are_consecutive_days(a: (int, int, int), b: (int, int, int))
    requires
        valid_date(a.0, a.1, a.2),
        valid_date(b.0, b.1, b.2),
        day_number(b.0, b.1, b.2) == day_number(a.0, a.1, a.2) + 1,
    ensures
        b == next_day(a),
{
    next_day_counts_one(a.0, a.1, a.2);
    day_number_names_one_date(next_day(a), b);
}

/// The days of an era of four hundred years that starts in March, split into
/// years that start in March.
proof fn year_of_era(doe: int)
    requires
        0 <= doe <= 146096,
    ensures
        ({
            let yoe = (doe - doe / 1460 + doe / 36524 - doe / 146096) / 365;
            let doy = doe - (365 * yoe + yoe / 4 - yoe / 100);
            &&& 0 <= yoe <= 399
            &&& 0 <= doy < days_in_year(yoe + 1)
        }),
{
}

/// Eras of four hundred years have the same number of days.
proof fn days_before_year_in_era(era: int, yoe: int)
    requires
        0 <= yoe <= 399,
    ensures
        days_before_year(400 * era + yoe + 1) == 146097 * era + 365 * yoe + yoe / 4 - yoe / 100
            + 366,
        is_leap_year(400 * era + yoe + 1) == is_leap_year(yoe + 1),
{
    let y = 400 * era + yoe;
    assert((y + 4) / 4 == 100 * era + yoe / 4 + 1);
    assert((y + 100) / 100 == 4 * era + yoe / 100 + 1);
    assert((y + 400) / 400 == era + 1);
    assert((y + 1) % 4 == (yoe + 1) % 4);
    assert((y + 1) % 100 == (yoe + 1) % 100);
    assert((y + 1) % 400 == (yoe + 1) % 400);
}

/// A day of a year that starts in March, as month and day. `y` is the civil
/// year of that March.
proof fn month_of_year(y: int, doy: int)
    requires
        0 <= doy < days_in_year(y + 1),
    ensures
        ({
            let mp = (5 * doy + 2) / 153;
            let d = doy - (153 * mp + 2) / 5 + 1;
            let m = if mp < 10 { mp + 3 } else { mp - 9 };
            let year = if m <= 2 { y + 1 } else { y };
            &&& 0 <= mp <= 11
            &&& 1 <= m <= 12
            &&& valid_date(year, m, d)
            &&& day_number(year, m, d) == days_before_year(y + 1) - 306 - days_before_year(1970)
                + doy
        }),
{
    days_before_month_values(y);
    days_before_month_values(y + 1);
    days_before_next_year(y);
    let mp = (5 * doy + 2) / 153;
    assert(0 <= mp <= 11);
}

/// The date `z` days after 1970-01-01 as year, month and day (Hinnant's algorithm on
/// eras of four hundred years that start on the first of March of year 0).
pub fn civil_from_days(z: i64) -> (date: (i64, u32, u32))
    requires
        z + 719468 <= i64::MAX,
    ensures
        valid_date(date.0 as int, date.1 as int, date.2 as int),
        day_number(date.0 as int, date.1 as int, date.2 as int) == z,
        1 <= date.1 <= 12,
        1 <= date.2 <= 31,
        date.1 == 4 || date.1 == 6 || date.1 == 9 || date.1 == 11 ==> date.2 <= 30,
        date.1 == 2 ==> date.2 <= 29,
        date.1 == 2 && date.2 == 29 ==> date.0 as int % 4 == 0 && (date.0 as int % 100 != 0
            || date.0 as int % 400 == 0),
{
    let z: i64 = z + 719468;
    let era: i64 = (if z >= 0 {
        z
    } else {
        z - 146096
    }) / 146097;
    let doe: i64 = z - era * 146097;
    proof {
        year_of_era(doe as int);
    }
    let yoe: i64 = (doe - doe / 1460 + doe / 36524 - doe / 146096) / 365;
    let doy: i64 = doe - (365 * yoe + yoe / 4 - yoe / 100);
    let y: i64 = yoe + era * 400;
    let mp: i64 = (5 * doy + 2) / 153;
    let d: i64 = doy - (153 * mp + 2) / 5 + 1;
    let m: i64 = if mp < 10 {
        mp + 3
    } else {
        mp - 9
    };
    let year: i64 = if m <= 2 {
        y + 1
    } else {
        y
    };
    proof {
        days_before_year_in_era(era as int, yoe as int);
        month_of_year(y as int, doy as int);
        assert(days_before_year(1970) == 719528);
    }
    (year, m as u32, d as u32)
}

/// The date with this count of days: year, month and day of the month.
pub open spec fn date_of(days: int) -> (int, int, int) {
    choose|date: (int, int, int)|
        #![trigger valid_date(date.0, date.1, date.2)]
        valid_date(date.0, date.1, date.2) && day_number(date.0, date.1, date.2) == days
}

/// A date is the date of its count of days.
pub proof fn date_of_its_number(year: int, month: int, day: int)
    requires
        valid_date(year, month, day),
    ensures
        date_of(day_number(year, month, day)) == (year, month, day),
{
    let days = day_number(year, month, day);
    let date = (year, month, day);
    assert(valid_date(date.0, date.1, date.2));
    let found = date_of(days);
    assert(valid_date(found.0, found.1, found.2) && day_number(found.0, found.1, found.2) == days);
    day_number_names_one_date(date, found);
}

/// How long the months are: the knuckles, and February by the year.
pub proof fn months_are_as_long_as_they_are(year: int)
    ensures
        forall|month: int|
            month == 1 || month == 3 || month == 5 || month == 7 || month == 8 || month == 10
                || month == 12 ==> #[trigger] days_in_month(year, month) == 31,
        forall|month: int|
            month == 4 || month == 6 || month == 9 || month == 11 ==> #[trigger] days_in_month(
                year,
                month,
            ) == 30,
        year % 4 != 0 ==> days_in_month(year, 2) == 28,
        year % 100 != 0 && year % 4 == 0 ==> days_in_month(year, 2) == 29,
        year % 100 == 0 && year % 400 != 0 ==> days_in_month(year, 2) == 28,
        year % 400 == 0 ==> days_in_month(year, 2) == 29,
{
    assert(year % 400 == 0 ==> year % 100 == 0 && year % 4 == 0);
    assert(year % 100 == 0 ==> year % 4 == 0);
}

/// The count starts on the first day of 1970, grows by one from day to day, and
/// goes on from the last day of a month and of a year to the first of the next.
pub proof fn days_are_counted_one_by_one(year: int, month: int, day: int)
    requires
        1 <= month <= 12,
    ensures
        day_number(1970, 1, 1) == 0,
        day_number(year, month, day + 1) == day_number(year, month, day) + 1,
        month < 12 ==> day_number(year, month + 1, 1) == day_number(
            year,
            month,
            days_in_month(year, month),
        ) + 1,
        day_number(year + 1, 1, 1) == day_number(year, 12, 31) + 1,
{
    days_before_month_values(year);
    days_before_month_values(year + 1);
    days_before_next_year(year);
}

/// Every count of days from the epoch on is that of a date.
pub proof fn day_has_a_date(days: int)
    requires
        days >= 0,
    ensures
        ({
            let date = date_of(days);
            valid_date(date.0, date.1, date.2) && day_number(date.0, date.1, date.2) == days
        }),
    decreases days,
{
    if days == 0 {
        days_are_counted_one_by_one(1970, 1, 1);
        date_of_its_number(1970, 1, 1);
    } else {
        day_has_a_date(days - 1);
        let before = date_of(days - 1);
        next_day_counts_one(before.0, before.1, before.2);
        let date = next_day(before);
        date_of_its_number(date.0, date.1, date.2);
    }
}

}
