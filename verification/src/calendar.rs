//! Dates of the Gregorian calendar and their ISO text.
use vstd::prelude::*;
use crate::text::{digits_of, padded, padded_digits};
use crate::units::MAX_MS;

verus! {

/// Seconds of a day.
pub const DAY_SEC: i64 = 86_400;

/// Whether a year is a leap year.
pub open spec fn is_leap(y: int) -> bool {
    y % 4 == 0 && (y % 100 != 0 || y % 400 == 0)
}

/// Leap years from year one up to the one before `y`.
pub open spec fn leaps_before(y: int) -> int {
    (y - 1) / 4 - (y - 1) / 100 + (y - 1) / 400
}

/// Days of a year before a month.
pub open spec fn days_before_month(y: int, m: int) -> int {
    let leap = if is_leap(y) {
        1int
    } else {
        0
    };
    if m <= 1 {
        0
    } else if m == 2 {
        31
    } else if m == 3 {
        59 + leap
    } else if m == 4 {
        90 + leap
    } else if m == 5 {
        120 + leap
    } else if m == 6 {
        151 + leap
    } else if m == 7 {
        181 + leap
    } else if m == 8 {
        212 + leap
    } else if m == 9 {
        243 + leap
    } else if m == 10 {
        273 + leap
    } else if m == 11 {
        304 + leap
    } else if m == 12 {
        334 + leap
    } else {
        365 + leap
    }
}

/// Days from the first of January 1970 to a date.
pub open spec fn day_number(date: (int, int, int)) -> int {
    365 * (date.0 - 1970) + leaps_before(date.0) - leaps_before(1970) + days_before_month(
        date.0,
        date.1,
    ) + date.2 - 1
}

/// Whether a year, a month and a day are a date.
pub open spec fn is_date(date: (int, int, int)) -> bool {
    &&& 1 <= date.1 <= 12
    &&& 1 <= date.2 <= days_before_month(date.0, date.1 + 1) - days_before_month(date.0, date.1)
}

/// Two dates with the same day number are the same.
pub proof fn a_day_is_one_date(a: (int, int, int), b: (int, int, int))
    requires
        is_date(a),
        is_date(b),
        day_number(a) == day_number(b),
    ensures
        a == b,
{
    if a.0 < b.0 {
        years_follow_each_other(a.0, b.0);
    } else if b.0 < a.0 {
        years_follow_each_other(b.0, a.0);
    }
}

/// A leap year adds one to the leap years before the next.
proof fn leap_years_add_up(y: int)
    ensures
        leaps_before(y + 1) - leaps_before(y) == (if is_leap(y) {
            1int
        } else {
            0int
        }),
        leaps_before(y + 1) == y / 4 - y / 100 + y / 400,
{
    quotients_step(y, 4);
    quotients_step(y, 100);
    quotients_step(y, 400);
}

proof fn quotients_step(y: int, n: int)
    requires
        n == 4 || n == 100 || n == 400,
    ensures
        y / n - (y - 1) / n == (if y % n == 0 {
            1int
        } else {
            0int
        }),
{
}

proof fn years_follow_each_other(y: int, later: int)
    requires
        y < later,
    ensures
        365 * later + leaps_before(later) >= 365 * y + leaps_before(y) + days_before_month(y, 13),
    decreases later - y,
{
    if later == y + 1 {
        leap_years_add_up(y);
    } else {
        years_follow_each_other(y, later - 1);
        leap_years_add_up(later - 1);
        days_of_a_year(later - 1);
        days_of_a_year(y);
    }
}

proof fn days_of_a_year(y: int)
    ensures
        365 <= days_before_month(y, 13) <= 366,
{
}

/// The date of a day number.
pub open spec fn date_of(day: int) -> (int, int, int) {
    choose|date: (int, int, int)| is_date(date) && day_number(date) == day
}

/// Days from the first of March of year nought to that of year `y`.
proof fn march_days(y: int)
    ensures
        day_number((y, 3, 1)) == 365 * y + y / 4 - y / 100 + y / 400 - 719468,
{
    leap_years_add_up(y);
}

/// The month and the day of the day `doy` of a year that starts in March.
fn month_and_day(doy: i64) -> (r: (i64, i64, i64))
    requires
        0 <= doy <= 365,
    ensures
        ({
            let (m, d, next) = r;
            &&& 1 <= m <= 12
            &&& next == (if m <= 2 {
                1int
            } else {
                0int
            })
            &&& 1 <= d
            &&& forall|y: int|
                (doy == 365 ==> is_leap(y + 1)) ==> is_date(
                    (y + next, m as int, d as int),
                ) && #[trigger] day_number((y + next, m as int, d as int)) == day_number((y, 3, 1))
                    + doy
        }),
{
    let mp: i64 = (5 * doy + 2) / 153;
    let d: i64 = doy - (153 * mp + 2) / 5 + 1;
    let m: i64 = if mp < 10 {
        mp + 3
    } else {
        mp - 9
    };
    let next: i64 = if m <= 2 {
        1
    } else {
        0
    };
    proof {
        assert(0 <= mp <= 11);
        assert forall|y: int| (doy == 365 ==> is_leap(y + 1)) implies is_date(
            (y + next, m as int, d as int),
        ) && #[trigger] day_number((y + next, m as int, d as int)) == day_number((y, 3, 1)) + doy by {
            march_days(y);
            march_days(y + 1);
            if m <= 2 {
                leap_years_add_up(y);
            }
        }
    }
    (m, d, next)
}

/// The era of four hundred years and the day in it.
fn split_era(z: i64) -> (r: (i64, i64))
    requires
        -2 * MAX_MS <= z <= 2 * MAX_MS,
    ensures
        z == r.0 * 146_097 + r.1,
        0 <= r.1 <= 146_096,
{
    let era: i64 = if z >= 0 {
        z / 146_097
    } else {
        -((146_096 - z) / 146_097)
    };
    (era, z - era * 146_097)
}

/// The century of an era, the four years of it and the year of those that a
/// day is in, and the day of the year; years start in March.
fn year_in_era(doe: i64) -> (r: (i64, i64, i64, i64))
    requires
        0 <= doe <= 146_096,
    ensures
        ({
            let (century, four, one, doy) = r;
            &&& doe == century * 36_524 + four * 1_461 + one * 365 + doy
            &&& 0 <= century <= 3
            &&& 0 <= four <= 24
            &&& 0 <= one <= 3
            &&& 0 <= doy <= 365
            &&& doy == 365 ==> one == 3 && (four == 24 ==> century == 3)
        }),
{
    let century: i64 = if doe / 36_524 <= 3 {
        doe / 36_524
    } else {
        3
    };
    let in_century: i64 = doe - century * 36_524;
    let four: i64 = in_century / 1_461;
    let in_four: i64 = in_century % 1_461;
    let one: i64 = if in_four / 365 <= 3 {
        in_four / 365
    } else {
        3
    };
    (century, four, one, in_four - one * 365)
}

/// The first of March of a year, and whether the next February has a
/// twenty-ninth.
proof fn march_of_a_year(era: int, century: int, four: int, one: int)
    requires
        0 <= century <= 3,
        0 <= four <= 24,
        0 <= one <= 3,
    ensures
        ({
            let y = era * 400 + century * 100 + four * 4 + one;
            &&& day_number((y, 3, 1)) == era * 146_097 + century * 36_524 + four * 1_461 + one * 365
                - 719_468
            &&& one == 3 && (four == 24 ==> century == 3) ==> is_leap(y + 1)
        }),
{
    let y = era * 400 + century * 100 + four * 4 + one;
    assert(y / 4 == era * 100 + century * 25 + four);
    assert(y / 100 == era * 4 + century);
    assert(y / 400 == era);
    march_days(y);
    if one == 3 && (four == 24 ==> century == 3) {
        assert(y + 1 == 400 * era + 100 * century + 4 * (four + 1));
        if four == 24 {
            assert(y + 1 == 400 * (era + 1));
            assert((y + 1) % 400 == 0);
        } else {
            assert((y + 1) % 100 == 4 * (four + 1));
        }
    }
}

/// The date of a number of days after, or before, the first of January 1970.
pub fn civil_from_days(day: i64) -> (r: (i64, i64, i64))
    requires
        -MAX_MS <= day <= MAX_MS,
    ensures
        is_date((r.0 as int, r.1 as int, r.2 as int)),
        day_number((r.0 as int, r.1 as int, r.2 as int)) == day,
        (r.0 as int, r.1 as int, r.2 as int) == date_of(day as int),
        -MAX_MS <= r.0 <= MAX_MS,
        day >= 0 ==> r.0 >= 1970,
        1 <= r.1 <= 12,
        1 <= r.2 <= 31,
{
    let z: i64 = day + 719_468;
    let (era, doe) = split_era(z);
    let (century, four, one, doy) = year_in_era(doe);
    let y: i64 = era * 400 + century * 100 + four * 4 + one;
    proof {
        march_of_a_year(era as int, century as int, four as int, one as int);
        assert(day_number((y as int, 3, 1)) + doy == day);
    }
    let (m, d, next) = month_and_day(doy);
    let year: i64 = y + next;
    proof {
        assert(day_number((y + next, m as int, d as int)) == day);
        a_day_is_one_date((year as int, m as int, d as int), date_of(day as int));
        if day >= 0 && year < 1970 {
            years_follow_each_other(year as int, 1970);
        }
    }
    (year, m, d)
}

/// The ISO text of a second, without fractions.
pub open spec fn iso_text(ts: int) -> Seq<char> {
    let date = date_of(ts / 86_400);
    let rem = ts % 86_400;
    padded(digits_of(date.0), 4) + seq!['-'] + padded(digits_of(date.1), 2) + seq!['-'] + padded(
        digits_of(date.2),
        2,
    ) + seq!['T'] + padded(digits_of(rem / 3_600), 2) + seq![':'] + padded(
        digits_of((rem % 3_600) / 60),
        2,
    ) + seq![':'] + padded(digits_of(rem % 60), 2) + seq!['Z']
}

/// The ISO text of a second.
pub fn chrono_iso(ts: i64) -> (r: String)
    requires
        0 <= ts <= MAX_MS,
    ensures
        r@ == iso_text(ts as int),
{
    let days: i64 = ts / DAY_SEC;
    let rem: i64 = ts % DAY_SEC;
    let (y, m, d) = civil_from_days(days);
    let mut r: String = padded_digits(y as u64, 4);
    r.push('-');
    r.append(padded_digits(m as u64, 2).as_str());
    r.push('-');
    r.append(padded_digits(d as u64, 2).as_str());
    r.push('T');
    r.append(padded_digits((rem / 3_600) as u64, 2).as_str());
    r.push(':');
    r.append(padded_digits(((rem % 3_600) / 60) as u64, 2).as_str());
    r.push(':');
    r.append(padded_digits((rem % 60) as u64, 2).as_str());
    r.push('Z');
    proof {
        assert(r@ =~= iso_text(ts as int));
    }
    r
}

} // verus!
