//! Dates of day counts in the proleptic Gregorian calendar.

use vstd::prelude::*;

verus! {

/// The day count of a date: days from 1970-01-01 to year `y`, month `m`,
/// day `d`, counted in years that start on 1 March (so that the leap day
/// ends its year): 146097 days for every 400 years, 365 for every year, a
/// leap day every fourth year but every hundredth, and the days of the
/// months from March on (31, 30, 31, 30, 31, 31, 30, 31, 30, 31, 31).
pub open spec fn days_from_civil(y: int, m: int, d: int) -> int {
    let ym = if m <= 2 {
        y - 1
    } else {
        y
    };
    let era = ym / 400;
    let yoe = ym - era * 400;
    let mp = if m > 2 {
        m - 3
    } else {
        m + 9
    };
    let doy = (153 * mp + 2) / 5 + d - 1;
    let doe = yoe * 365 + yoe / 4 - yoe / 100 + doy;
    era * 146097 + doe - 719468
}

/// A leap year of the Gregorian calendar.
pub open spec fn is_leap_year(y: int) -> bool {
    y % 4 == 0 && (y % 100 != 0 || y % 400 == 0)
}

/// The number of days of month `m` (1 to 12) of year `y`.
pub open spec fn month_length(y: int, m: int) -> int {
    if m == 2 {
        if is_leap_year(y) {
            29
        } else {
            28
        }
    } else if m == 4 || m == 6 || m == 9 || m == 11 {
        30
    } else {
        31
    }
}

/// The last day of a year of era is only reached in a leap year: day 365
/// of the year of era `yoe` (counted from March) needs `yoe + 1` to be leap.
proof fn lemma_last_day_leap(doe: u32, yoe: u32, doy: u32)
    by (bit_vector)
    requires
        doe < 146097,
        yoe == ((doe - doe / 1460 + doe / 36524 - doe / 146096) / 365),
        doy == doe - (365 * ((doe - doe / 1460 + doe / 36524 - doe / 146096) / 365) + ((doe - doe / 1460 + doe / 36524 - doe / 146096) / 365) / 4 - ((doe - doe / 1460 + doe / 36524 - doe / 146096) / 365) / 100),
        doy == 365,
    ensures
        yoe % 4 == 3,
        yoe % 100 != 99 || yoe == 399,
{
}

/// The year of era and day of year of a day of era (`0..146097`), counted
/// from 1 March of the era's first year.
proof fn lemma_era_day_bounds(doe: u32)
    by (bit_vector)
    requires
        doe < 146097,
    ensures
        (doe - doe / 1460 + doe / 36524 - doe / 146096) / 365 < 400,
        doe >= 365 * ((doe - doe / 1460 + doe / 36524 - doe / 146096) / 365) + ((doe - doe / 1460 + doe / 36524
            - doe / 146096) / 365) / 4 - ((doe - doe / 1460 + doe / 36524 - doe / 146096) / 365) / 100,
        doe - (365 * ((doe - doe / 1460 + doe / 36524 - doe / 146096) / 365) + ((doe - doe / 1460 + doe
            / 36524 - doe / 146096) / 365) / 4 - ((doe - doe / 1460 + doe / 36524 - doe / 146096) / 365)
            / 100) <= 365,
{
}

/// The month of March-based year day `doy` (`0..366`), counted from March as
/// 0, and the day of that month.
proof fn lemma_month_day_bounds(doy: u32, mp: u32, dd: u32)
    by (bit_vector)
    requires
        doy < 366,
        mp == (5 * doy + 2) / 153,
        dd == doy - (153 * ((5 * doy + 2) / 153) + 2) / 5,
    ensures
        mp < 12,
        (153 * ((5 * doy + 2) / 153) + 2) / 5 <= doy,
        dd < 31,
        (mp != 1 && mp != 3 && mp != 6 && mp != 8) || dd < 30,
        mp != 11 || dd < 29 || doy >= 365,
{
}

/// The date of a day count: year, month (1 to 12) and day (1 to 31) of the
/// day `days` after 1970-01-01, so that [`days_from_civil`] gives `days` back.
pub fn epoch_days_to_date(days: i64) -> (r: (i64, i64, i64))
    requires
        days <= i64::MAX - 719468,
    ensures
        1 <= r.1 <= 12,
        1 <= r.2 <= month_length(r.0 as int, r.1 as int),
        days_from_civil(r.0 as int, r.1 as int, r.2 as int) == days,
{
    let z = days + 719468;
    let era: i64 = if z >= 0 {
        z / 146097
    } else {
        -((146096 - z) / 146097)
    };
    proof {
        if z >= 0 {
            assert(era * 146097 <= z < era * 146097 + 146097) by (nonlinear_arith)
                requires
                    z >= 0,
                    era == z / 146097,
            ;
        } else {
            let a: int = 146096 - z;
            assert(era * 146097 <= z < era * 146097 + 146097) by (nonlinear_arith)
                requires
                    a > 0,
                    a == 146096 - z,
                    era == -(a / 146097),
            ;
        }
    }
    let doe = z - era * 146097;
    proof {
        lemma_era_day_bounds(doe as u32);
    }
    let yoe = (doe - doe / 1460 + doe / 36524 - doe / 146096) / 365;
    let y = yoe + era * 400;
    let doy = doe - (365 * yoe + yoe / 4 - yoe / 100);
    let mp = (5 * doy + 2) / 153;
    proof {
        lemma_month_day_bounds(doy as u32, mp as u32, (doy - (153 * mp + 2) / 5) as u32);
    }
    let d = doy - (153 * mp + 2) / 5 + 1;
    let m = mp + if mp < 10 {
        3
    } else {
        -9
    };
    let y = y + if m <= 2 {
        1
    } else {
        0
    };
    proof {
        if doy == 365 {
            lemma_last_day_leap(doe as u32, yoe as u32, doy as u32);
            let k: int = yoe + 1;
            let yy: int = k + era * 400;
            assert(yy % 4 == k % 4 && yy % 100 == k % 100 && yy % 400 == k % 400) by (nonlinear_arith)
                requires
                    yy == k + era * 400,
            ;
        }
        let ym: int = yoe + era * 400;
        assert(ym / 400 == era && ym - (ym / 400) * 400 == yoe) by (nonlinear_arith)
            requires
                ym == yoe + era * 400,
                0 <= yoe < 400,
        ;
    }
    (y, m, d)
}

} // verus!
