//! The proleptic Gregorian calendar, counted in days from the Unix epoch.

use vstd::prelude::*;

verus! {

/// Whether year `y` of the proleptic Gregorian calendar is a leap year.
pub open spec fn is_leap(y: int) -> bool {
    y % 4 == 0 && (y % 100 != 0 || y % 400 == 0)
}

/// The first day of the year of era `yoe` (years counted from March 1) within a
/// 400-year era.
pub open spec fn year_of_era_start(yoe: int) -> int {
    365 * yoe + yoe / 4 - yoe / 100
}

/// The year of era that day of era `doe` falls in.
pub open spec fn year_of_era(doe: int) -> int {
    (doe - doe / 1460 + doe / 36524 - doe / 146096) / 365
}

proof fn lemma_year_of_era(doe: int)
    requires
        0 <= doe <= 146096,
    ensures
        0 <= year_of_era(doe) <= 399,
        year_of_era_start(year_of_era(doe)) <= doe,
        doe < year_of_era_start(year_of_era(doe)) + 365 + if is_leap(year_of_era(doe) + 1) { 1int } else { 0 },
{
}


/// The length of month `mp` of a year counted from March (0 is March, 11 is February).
pub open spec fn march_month_len(mp: int, leap: bool) -> int {
    if mp == 11 {
        if leap {
            29
        } else {
            28
        }
    } else if mp == 1 || mp == 3 || mp == 6 || mp == 8 {
        30
    } else {
        31
    }
}

proof fn lemma_day_of_year(doy: int, leap: bool)
    requires
        0 <= doy < 365 + if leap { 1int } else { 0 },
    ensures
        0 <= (5 * doy + 2) / 153 <= 11,
        1 <= doy - (153 * ((5 * doy + 2) / 153) + 2) / 5 + 1 <= march_month_len((5 * doy + 2) / 153, leap),
{
}
/// The Gregorian date `(year, month, day)` of the day `z` days after 1970-01-01
/// (Howard Hinnant's `civil_from_days`, over the mathematical integers).
pub open spec fn civil(z: int) -> (int, int, int) {
    let z1 = z + 719468;
    let era = z1 / 146097;
    let doe = z1 - era * 146097;
    let yoe = (doe - doe / 1460 + doe / 36524 - doe / 146096) / 365;
    let y = yoe + era * 400;
    let doy = doe - (365 * yoe + yoe / 4 - yoe / 100);
    let mp = (5 * doy + 2) / 153;
    let d = doy - (153 * mp + 2) / 5 + 1;
    let m = if mp < 10 {
        mp + 3
    } else {
        mp - 9
    };
    (if m <= 2 {
        y + 1
    } else {
        y
    }, m, d)
}


/// The number of days in month `m` (1 is January) of year `y`.
pub open spec fn month_len(y: int, m: int) -> int {
    if m == 2 {
        if is_leap(y) {
            29
        } else {
            28
        }
    } else if m == 4 || m == 6 || m == 9 || m == 11 {
        30
    } else {
        31
    }
}

/// Whether `(y, m, d)` names a day of the proleptic Gregorian calendar.
pub open spec fn valid_date(y: int, m: int, d: int) -> bool {
    1 <= m <= 12 && 1 <= d <= month_len(y, m)
}

/// The number of leap years from year 1 through year `y` (negative for `y` before year 0,
/// counted so that consecutive years differ by one exactly at a leap year).
pub open spec fn leap_years_through(y: int) -> int {
    y / 4 - y / 100 + y / 400
}

/// The day, counted from 1970-01-01, on which year `y` begins.
pub open spec fn year_start(y: int) -> int {
    365 * (y - 1970) + leap_years_through(y - 1) - leap_years_through(1969)
}

/// The number of days in year `y` before month `m` begins.
pub open spec fn month_start(y: int, m: int) -> int
    decreases m,
{
    if m <= 1 {
        0
    } else {
        month_start(y, m - 1) + month_len(y, m - 1)
    }
}

/// The day, counted from 1970-01-01, of the date `(y, m, d)`.
pub open spec fn days_from_epoch(y: int, m: int, d: int) -> int {
    year_start(y) + month_start(y, m) + d - 1
}

proof fn lemma_div_steps(y: int)
    ensures
        y / 4 - (y - 1) / 4 == if y % 4 == 0 { 1int } else { 0 },
        y / 100 - (y - 1) / 100 == if y % 100 == 0 { 1int } else { 0 },
        y / 400 - (y - 1) / 400 == if y % 400 == 0 { 1int } else { 0 },
        y % 100 == 0 ==> y % 4 == 0,
        y % 400 == 0 ==> y % 100 == 0,
{
}

/// A year has 366 days when it is a leap year and 365 otherwise: the next year begins
/// that many days later.
pub proof fn lemma_year_length(y: int)
    ensures
        year_start(y + 1) == year_start(y) + 365 + if is_leap(y) {
            1int
        } else {
            0
        },
{
    lemma_div_steps(y);
    assert(leap_years_through(y) - leap_years_through(y - 1) == if is_leap(y) { 1int } else { 0 });
}

/// The leap years through year `yoe + 400 * era` of a 400-year era.
proof fn lemma_leap_years_in_era(yoe: int, era: int)
    requires
        0 <= yoe <= 399,
    ensures
        leap_years_through(yoe + era * 400) == yoe / 4 - yoe / 100 + era * 97,
        is_leap(yoe + era * 400 + 1) == is_leap(yoe + 1),
{
}

proof fn lemma_month_starts(y: int)
    ensures
        month_start(y, 1) == 0,
        month_start(y, 2) == 31,
        month_start(y, 3) == 59 + if is_leap(y) { 1int } else { 0 },
        month_start(y, 4) == month_start(y, 3) + 31,
        month_start(y, 5) == month_start(y, 3) + 61,
        month_start(y, 6) == month_start(y, 3) + 92,
        month_start(y, 7) == month_start(y, 3) + 122,
        month_start(y, 8) == month_start(y, 3) + 153,
        month_start(y, 9) == month_start(y, 3) + 184,
        month_start(y, 10) == month_start(y, 3) + 214,
        month_start(y, 11) == month_start(y, 3) + 245,
        month_start(y, 12) == month_start(y, 3) + 275,
{
    reveal_with_fuel(month_start, 12);
}

/// `civil` is the proleptic Gregorian calendar: for every day `z` counted from
/// 1970-01-01, it gives a valid date, and that date is day `z`.
pub proof fn lemma_civil_is_gregorian(z: int)
    ensures
        valid_date(civil(z).0, civil(z).1, civil(z).2),
        days_from_epoch(civil(z).0, civil(z).1, civil(z).2) == z,
{
    let z1 = z + 719468;
    let era = z1 / 146097;
    let doe = z1 - era * 146097;
    assert(0 <= doe <= 146096);
    lemma_year_of_era(doe);
    let yoe = year_of_era(doe);
    let y = yoe + era * 400;
    let doy = doe - year_of_era_start(yoe);
    lemma_leap_years_in_era(yoe, era);
    lemma_day_of_year(doy, is_leap(y + 1));
    let mp = (5 * doy + 2) / 153;
    let d = doy - (153 * mp + 2) / 5 + 1;
    lemma_month_starts(y);
    lemma_month_starts(y + 1);
    lemma_year_length(y);
    let march_first = year_start(y) + 59 + if is_leap(y) { 1int } else { 0 };
    assert(march_first + doy == z) by {
        assert(year_start(y) == 365 * (y - 1970) + leap_years_through(y - 1) - 477);
        lemma_div_steps(y);
    }
    assert(civil(z) == (if mp < 10 { y } else { y + 1 }, if mp < 10 { mp + 3 } else { mp - 9 }, d));
}

} // verus!
