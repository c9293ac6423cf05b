//! The proleptic Gregorian calendar: days since 1970-01-01 and the dates that they fall on.
use vstd::prelude::*;

verus! {

/// `y` is a leap year.
pub open spec fn is_leap(y: int) -> bool {
    y % 4 == 0 && (y % 100 != 0 || y % 400 == 0)
}

/// The number of days of a month, January being 1.
pub open spec fn days_in_month(y: int, m: int) -> int {
    if m == 2 {
        if is_leap(y) {
            29
        } else {
            28
        }
    } else if m == 4 || m == 6 || m == 9 || m == 11 {
        30
    } else {
        31
    }
}

/// The number of days of a year.
pub open spec fn days_in_year(y: int) -> int {
    if is_leap(y) {
        366
    } else {
        365
    }
}

/// The days of the year that lie before the month.
pub open spec fn days_before_month(y: int, m: int) -> int
    decreases m,
{
    if m <= 1 {
        0
    } else {
        days_before_month(y, m - 1) + days_in_month(y, m - 1)
    }
}

/// The leap years among the years from 1 to `y`, counted below 1 with a minus sign.
pub open spec fn leap_years_to(y: int) -> int {
    y / 4 - y / 100 + y / 400
}

/// The days from 1970-01-01 to the first day of the year.
pub open spec fn days_before_year(y: int) -> int {
    365 * (y - 1970) + leap_years_to(y - 1) - leap_years_to(1969)
}

/// A date of the calendar: year, month from 1, day from 1.
pub struct Date {
    pub year: int,
    pub month: int,
    pub day: int,
}

/// The month exists and the day is one of it.
pub open spec fn valid_date(d: Date) -> bool {
    1 <= d.month <= 12 && 1 <= d.day <= days_in_month(d.year, d.month)
}

/// The days from 1970-01-01 to the date.
pub open spec fn day_number(d: Date) -> int {
    days_before_year(d.year) + days_before_month(d.year, d.month) + d.day - 1
}

/// The date that lies `days` days after 1970-01-01.
pub open spec fn date_of(days: int) -> Date {
    choose|d: Date| valid_date(d) && #[trigger] day_number(d) == days
}

/// Each year begins where the one before it ended.
pub proof fn law_years_follow_each_other(y: int)
    ensures
        days_before_year(y + 1) == days_before_year(y) + days_in_year(y),
{
}

/// The months of a year fill it.
pub proof fn law_months_fill_the_year(y: int)
    ensures
        days_before_month(y, 12) + days_in_month(y, 12) == days_in_year(y),
{
    reveal_with_fuel(days_before_month, 13);
}

/// A later year begins later, by at least as many days as the years between have.
proof fn lemma_years_ascend(a: int, b: int)
    requires
        a < b,
    ensures
        days_before_year(a) + days_in_year(a) <= days_before_year(b),
    decreases b - a,
{
    law_years_follow_each_other(b - 1);
    if a < b - 1 {
        lemma_years_ascend(a, b - 1);
    }
}

/// A later month begins later, by at least as many days as the months between have.
proof fn lemma_months_ascend(y: int, a: int, b: int)
    requires
        1 <= a < b <= 12,
    ensures
        days_before_month(y, a) + days_in_month(y, a) <= days_before_month(y, b),
    decreases b - a,
{
    if a < b - 1 {
        lemma_months_ascend(y, a, b - 1);
    }
}

/// The day of a valid date lies within its year.
pub proof fn lemma_day_within_year(d: Date)
    requires
        valid_date(d),
    ensures
        days_before_year(d.year) <= day_number(d) < days_before_year(d.year) + days_in_year(d.year),
{
    reveal_with_fuel(days_before_month, 13);
}

/// No two dates have the same day number.
pub proof fn law_day_number_is_one_to_one(a: Date, b: Date)
    requires
        valid_date(a),
        valid_date(b),
        day_number(a) == day_number(b),
    ensures
        a == b,
{
    lemma_day_within_year(a);
    lemma_day_within_year(b);
    if a.year < b.year {
        lemma_years_ascend(a.year, b.year);
    }
    if b.year < a.year {
        lemma_years_ascend(b.year, a.year);
    }
    if a.month < b.month {
        lemma_months_ascend(a.year, a.month, b.month);
    }
    if b.month < a.month {
        lemma_months_ascend(a.year, b.month, a.month);
    }
}

/// The date of a day number is that date: counting days and naming dates undo each other.
pub proof fn law_date_round_trip(d: Date)
    requires
        valid_date(d),
    ensures
        date_of(day_number(d)) == d,
{
    let c = date_of(day_number(d));
    assert(valid_date(c) && day_number(c) == day_number(d));
    law_day_number_is_one_to_one(c, d);
}

/// The days before the year of `yoe` within a cycle of 400 years that begins on a first of March.
spec fn cycle_days(yoe: int) -> int {
    365 * yoe + yoe / 4 - yoe / 100
}

/// The days from the first of March to the month, which is counted from March as 0.
spec fn march_days(mp: int) -> int {
    (153 * mp + 2) / 5
}

/// A date by its place in the cycle of 400 years that begins on a first of March.
proof fn lemma_march_form(y: int, m: int, d: int, era: int, yoe: int, mp: int)
    requires
        1 <= m <= 12,
        0 <= yoe < 400,
        era * 400 + yoe == (if m <= 2 { y - 1 } else { y }),
        mp == (if m > 2 { m - 3 } else { m + 9 }),
    ensures
        day_number(Date { year: y, month: m, day: d }) == era * 146_097 + cycle_days(yoe)
            + march_days(mp) + d - 1 - 719_468,
{
    let z = era * 400 + yoe;
    assert(z / 4 == 100 * era + yoe / 4);
    assert(z / 100 == 4 * era + yoe / 100);
    assert(z / 400 == era);
    reveal_with_fuel(days_before_month, 13);
    if m > 2 {
        assert(leap_years_to(y) == leap_years_to(y - 1) + (if is_leap(y) {
            1int
        } else {
            0
        }));
    }
}

/// The year within the cycle, from the day within the cycle.
proof fn lemma_year_of_cycle(doe: int)
    requires
        0 <= doe < 146_097,
    ensures
        ({
            let yoe = (doe - doe / 1460 + doe / 36_524 - doe / 146_096) / 365;
            &&& 0 <= yoe < 400
            &&& cycle_days(yoe) <= doe
            &&& doe < cycle_days(yoe + 1) || (yoe == 399 && doe <= 146_096)
        }),
{
}

/// The date at a place of the cycle.
spec fn cycle_date(era: int, doe: int) -> Date {
    let yoe = (doe - doe / 1460 + doe / 36_524 - doe / 146_096) / 365;
    let doy = doe - cycle_days(yoe);
    let mp = (5 * doy + 2) / 153;
    let m = if mp < 10 {
        mp + 3
    } else {
        mp - 9
    };
    Date {
        year: yoe + era * 400 + (if m <= 2 {
            1int
        } else {
            0
        }),
        month: m,
        day: doy - march_days(mp) + 1,
    }
}

/// The date at a place of the cycle is valid, and has the number of that place.
proof fn lemma_cycle_date(era: int, doe: int)
    requires
        0 <= doe < 146_097,
    ensures
        valid_date(cycle_date(era, doe)),
        day_number(cycle_date(era, doe)) == era * 146_097 + doe - 719_468,
{
    lemma_year_of_cycle(doe);
    let date = cycle_date(era, doe);
    let yoe = (doe - doe / 1460 + doe / 36_524 - doe / 146_096) / 365;
    let y = yoe + era * 400;
    let doy = doe - cycle_days(yoe);
    let mp = (5 * doy + 2) / 153;
    assert(0 <= doy <= 365);
    assert(0 <= mp <= 11);
    assert(march_days(mp) <= doy < march_days(mp + 1));
    assert(doy == 365 ==> is_leap(y + 1));
    assert(valid_date(date));
    lemma_march_form(date.year, date.month, date.day, era, yoe, mp);
}

/// Every day has a date.
pub proof fn law_every_day_has_a_date(days: int)
    ensures
        valid_date(date_of(days)),
        day_number(date_of(days)) == days,
{
    let z = days + 719_468;
    let era = z / 146_097;
    let doe = z % 146_097;
    lemma_cycle_date(era, doe);
    assert(day_number(cycle_date(era, doe)) == days);
}

/// The date that lies `days_since_epoch` days after 1970-01-01. The year is cut to 32 bits, which
/// changes none within a billion years.
pub fn civil_from_days(days_since_epoch: i64) -> (r: (i32, u32, u32))
    requires
        days_since_epoch <= i64::MAX - 719_468,
    ensures
        ({
            let date = date_of(days_since_epoch as int);
            &&& valid_date(date)
            &&& day_number(date) == days_since_epoch
            &&& r.0 == date.year as i32
            &&& r.1 == date.month
            &&& r.2 == date.day
        }),
{
    let z: i64 = days_since_epoch + 719_468;
    let era: i64 = (if z >= 0 { z } else { z - 146_096 }) / 146_097;
    proof {
        assert(era == z as int / 146_097);
    }
    let doe: i64 = z - era * 146_097;
    proof {
        lemma_year_of_cycle(doe as int);
    }
    let yoe: i64 = (doe - doe / 1460 + doe / 36_524 - doe / 146_096) / 365;
    let y: i64 = yoe + era * 400;
    let doy: i64 = doe - (365 * yoe + yoe / 4 - yoe / 100);
    let mp: i64 = (5 * doy + 2) / 153;
    let d: i64 = doy - (153 * mp + 2) / 5 + 1;
    let m: i64 = mp + (if mp < 10 { 3 } else { -9 });
    let year: i64 = y + (if m <= 2 { 1 } else { 0 });
    proof {
        lemma_cycle_date(era as int, doe as int);
        assert(day_number(Date { year: year as int, month: m as int, day: d as int })
            == days_since_epoch);
        law_date_round_trip(Date { year: year as int, month: m as int, day: d as int });
    }
    (year as i32, m as u32, d as u32)
}

/// The days from 1970-01-01 to a date: `None` where there is no such month or no month has such a
/// day. A day that its month does not reach counts on into the next one.
pub fn days_from_civil(year: i32, month: u32, day: u32) -> (r: Option<i64>)
    ensures
        r == (if 1 <= month <= 12 && 1 <= day <= 31 {
            Some(
                day_number(
                    Date { year: year as int, month: month as int, day: day as int },
                ) as i64,
            )
        } else {
            None
        }),
        r matches Some(n) ==> n == day_number(
            Date { year: year as int, month: month as int, day: day as int },
        ),
{
    if month < 1 || month > 12 || day < 1 || day > 31 {
        return None;
    }
    let y: i64 = year as i64 - (if month <= 2 { 1 } else { 0 });
    let era: i64 = (if y >= 0 { y } else { y - 399 }) / 400;
    proof {
        assert(era == y as int / 400);
    }
    let yoe: i64 = y - era * 400;
    let m: i64 = month as i64;
    let mp: i64 = m + (if m > 2 { -3 } else { 9 });
    let doy: i64 = (153 * mp + 2) / 5 + day as i64 - 1;
    let doe: i64 = yoe * 365 + yoe / 4 - yoe / 100 + doy;
    proof {
        lemma_march_form(
            year as int,
            month as int,
            day as int,
            era as int,
            yoe as int,
            mp as int,
        );
    }
    Some(era * 146_097 + doe - 719_468)
}

} // verus!
