//! Calendar dates for backup file names.
use vstd::prelude::*;

verus! {

/// The proleptic Gregorian date (year, month, day) of the day that is `days`
/// days after 1970-01-01, by the era/day-of-era decomposition: 400-year eras
/// of 146097 days, years starting on 1 March.
pub open spec fn civil_from_days(days: int) -> (int, int, int) {
    let z = days + 719468;
    let era = z / 146097;
    let doe = z - era * 146097;
    let yoe = (doe - doe / 1460 + doe / 36524 - doe / 146096) / 365;
    let doy = doe - (365 * yoe + yoe / 4 - yoe / 100);
    let mp = (5 * doy + 2) / 153;
    let d = doy - (153 * mp + 2) / 5 + 1;
    let m = if mp < 10 { mp + 3 } else { mp - 9 };
    let y = yoe + era * 400;
    (if m <= 2 { y + 1 } else { y }, m, d)
}

/// Whether `y` is a leap year of the Gregorian calendar.
pub open spec fn is_leap(y: int) -> bool {
    (y % 4 == 0 && y % 100 != 0) || y % 400 == 0
}

/// The number of days in month `m` of year `y`.
pub open spec fn days_in_month(y: int, m: int) -> int {
    if m == 2 {
        if is_leap(y) { 29 } else { 28 }
    } else if m == 4 || m == 6 || m == 9 || m == 11 {
        30
    } else {
        31
    }
}

proof fn lemma_era_bounds(days: int)
    ensures
        ({
            let z = days + 719468;
            let era = z / 146097;
            let doe = z - era * 146097;
            0 <= doe < 146097
        }),
{
}

proof fn lemma_year_of_era(doe: int)
    requires
        0 <= doe < 146097,
    ensures
        ({
            let yoe = (doe - doe / 1460 + doe / 36524 - doe / 146096) / 365;
            let doy = doe - (365 * yoe + yoe / 4 - yoe / 100);
            &&& 0 <= yoe <= 399
            &&& 0 <= doy <= 365
        }),
{
    let a = doe / 1460;
    let b = doe / 36524;
    let c = doe / 146096;
    assert(0 <= a <= 100);
    assert(0 <= b <= 4);
    assert(0 <= c <= 1);
    assert(a * 1460 <= doe < a * 1460 + 1460);
    assert(b * 36524 <= doe < b * 36524 + 36524);
    assert(c * 146096 <= doe);
    let yoe = (doe - a + b - c) / 365;
    assert(yoe * 365 <= doe - a + b - c < yoe * 365 + 365);
    let q = yoe / 4;
    let r = yoe / 100;
    assert(q * 4 <= yoe < q * 4 + 4);
    assert(r * 100 <= yoe < r * 100 + 100);
    assert(doe - a + b - c < 146000) by (nonlinear_arith)
        requires
            a * 1460 <= doe < a * 1460 + 1460,
            b * 36524 <= doe,
            c * 146096 <= doe,
            0 <= doe < 146097,
            0 <= a <= 100,
            0 <= b <= 4,
            0 <= c <= 1,
            b == 4 ==> c == 1,
            doe >= 146096 ==> c == 1,
    {
        if a <= 99 {
            assert(a * 1460 <= 99 * 1460);
        }
    }
    assert(doe - a + b - c >= 0) by (nonlinear_arith)
        requires
            a * 1460 <= doe,
            0 <= a,
            c * 146096 <= doe,
            b * 36524 <= doe < b * 36524 + 36524,
            0 <= c <= 1,
    ;
    assert(0 <= yoe <= 399) by (nonlinear_arith)
        requires
            yoe * 365 <= doe - a + b - c,
            doe - a + b - c < yoe * 365 + 365,
            doe - a + b - c < 146000,
            doe - a + b - c >= 0,
            0 <= doe < 146097,
            0 <= a <= 100,
            0 <= b <= 4,
            0 <= c <= 1,
    ;
    assert(0 <= doe - (365 * yoe + q - r) <= 365) by (nonlinear_arith)
        requires
            yoe * 365 <= doe - a + b - c,
            doe - a + b - c < yoe * 365 + 365,
            a * 1460 <= doe < a * 1460 + 1460,
            b * 36524 <= doe < b * 36524 + 36524,
            c * 146096 <= doe,
            0 <= c <= 1,
            c == 1 ==> doe == 146096,
            q * 4 <= yoe < q * 4 + 4,
            r * 100 <= yoe < r * 100 + 100,
            0 <= yoe <= 399,
    ;
}

proof fn lemma_month_of_year(doy: int)
    requires
        0 <= doy <= 365,
    ensures
        ({
            let mp = (5 * doy + 2) / 153;
            let d = doy - (153 * mp + 2) / 5 + 1;
            &&& 0 <= mp <= 11
            &&& 1 <= d <= 31
        }),
{
    let mp = (5 * doy + 2) / 153;
    assert(mp * 153 <= 5 * doy + 2 < mp * 153 + 153);
    assert(0 <= mp <= 11);
    let t = (153 * mp + 2) / 5;
    assert(t * 5 <= 153 * mp + 2 < t * 5 + 5);
}

/// The month of a date is between 1 and 12 and its day between 1 and 31.
pub proof fn civil_from_days_is_in_range(days: int)
    ensures
        1 <= civil_from_days(days).1 <= 12,
        1 <= civil_from_days(days).2 <= 31,
{
    let z = days + 719468;
    let era = z / 146097;
    let doe = z - era * 146097;
    lemma_era_bounds(days);
    lemma_year_of_era(doe);
    let yoe = (doe - doe / 1460 + doe / 36524 - doe / 146096) / 365;
    let doy = doe - (365 * yoe + yoe / 4 - yoe / 100);
    lemma_month_of_year(doy);
}

/// A day on or after 1970-01-01 falls in a year between 0 and a little
/// more than `days`.
pub proof fn civil_from_days_year_is_positive(days: int)
    requires
        days >= 0,
    ensures
        0 <= civil_from_days(days).0 <= days + 720000,
{
    let z = days + 719468;
    let era = z / 146097;
    let doe = z - era * 146097;
    lemma_era_bounds(days);
    lemma_year_of_era(doe);
    assert(era >= 0);
    assert(era * 146097 <= z);
    assert(era * 400 <= z) by (nonlinear_arith)
        requires
            era * 146097 <= z,
            era >= 0,
    ;
}

/// The date of the day `days` days after 1970-01-01, as (year, month, day).
pub fn unix_days_to_date(days: i64) -> (r: (i64, u32, u32))
    requires
        days <= i64::MAX - 719468,
    ensures
        r.0 as int == civil_from_days(days as int).0,
        r.1 as int == civil_from_days(days as int).1,
        r.2 as int == civil_from_days(days as int).2,
        1 <= r.1 <= 12,
        1 <= r.2 <= days_in_month(r.0 as int, r.1 as int),
{
    proof {
        civil_from_days_day_in_month(days as int);
    }
    let z = days + 719468;
    let era: i64 = if z >= 0 {
        z / 146097
    } else {
        let e = (-(z + 1)) / 146097;
        -e - 1
    };
    proof {
        let ze = z as int;
        if ze < 0 {
            let e = (-(ze + 1)) / 146097;
            assert(e * 146097 <= -(ze + 1) < e * 146097 + 146097);
            assert(era == ze / 146097) by {
                assert((-e - 1) * 146097 <= ze < (-e - 1) * 146097 + 146097);
            }
        }
        lemma_era_bounds(days as int);
    }
    let doe_i: i64 = z - era * 146097;
    let doe = doe_i as u32;
    proof {
        lemma_year_of_era(doe as int);
    }
    let yoe = (doe - doe / 1460 + doe / 36524 - doe / 146096) / 365;
    let y = yoe as i64 + era * 400;
    let doy = doe - (365 * yoe + yoe / 4 - yoe / 100);
    proof {
        lemma_month_of_year(doy as int);
    }
    let mp = (5 * doy + 2) / 153;
    let d = doy - (153 * mp + 2) / 5 + 1;
    let m = if mp < 10 { mp + 3 } else { mp - 9 };
    let y = if m <= 2 { y + 1 } else { y };
    (y, m, d)
}

// ---------------------------------------------------------------------------
// Consecutive days have consecutive dates
// ---------------------------------------------------------------------------

/// The date after `t` = (year, month, day).
pub open spec fn next_date(t: (int, int, int)) -> (int, int, int) {
    if t.2 < days_in_month(t.0, t.1) {
        (t.0, t.1, t.2 + 1)
    } else if t.1 < 12 {
        (t.0, t.1 + 1, 1)
    } else {
        (t.0 + 1, 1, 1)
    }
}

/// The first day of year `y` of an era (years start on 1 March).
spec fn year_start(y: int) -> int {
    365 * y + y / 4 - y / 100
}

/// Whether year `y` of an era ends with a 29 February.
spec fn long_year(y: int) -> bool {
    (y + 1) % 4 == 0 && ((y + 1) % 100 != 0 || y == 399)
}

/// The number of days of year `y` of an era.
spec fn year_len(y: int) -> int {
    if long_year(y) { 366 } else { 365 }
}

/// The year of an era that day `doe` of the era falls in.
spec fn year_of_era(doe: int) -> int {
    (doe - doe / 1460 + doe / 36524 - doe / 146096) / 365
}

/// Day `k` of year `y` of an era is day `year_start(y) + k` of the era, and
/// the era's year formula finds `y` for it.
proof fn lemma_year_of_day(y: int, k: int)
    requires
        0 <= y < 400,
        0 <= k < year_len(y),
    ensures
        0 <= year_start(y) + k < 146097,
        year_of_era(year_start(y) + k) == y,
{
    let q = y / 4;
    let s = y % 4;
    let p = y / 100;
    let u = y % 100;
    assert(y == 4 * q + s);
    assert(y == 100 * p + u);
    assert(q == 25 * p + u / 4);
    let d = year_start(y) + k;
    assert(d == 365 * y + q - p + k);
    assert(q - p <= 96);
    let r = 365 * s + q - p + k;
    assert(d == 1460 * q + r);
    assert(0 <= r < 2920);
    let delta: int = if r >= 1460 { 1 } else { 0 };
    assert(d / 1460 == q + delta);
    let r2 = 365 * u + u / 4 + k;
    assert(d == 36524 * p + r2);
    assert(0 <= r2 <= 36524);
    let eps: int = if r2 == 36524 { 1 } else { 0 };
    assert(d / 36524 == p + eps);
    if y <= 398 {
        assert(d <= 145731);
    }
    let e: int = if d == 146096 { 1 } else { 0 };
    assert(d / 146096 == e);
    assert(eps == 1 <==> (y == 399 && k == 365));
    assert(e == 1 <==> (y == 399 && k == 365));
    assert(delta == 1 ==> s == 3 && k >= 1);
    assert(k == 365 ==> s == 3 && delta == 1);
    let t = d - d / 1460 + d / 36524 - d / 146096;
    assert(t == 365 * y + k - delta + eps - e);
    assert(0 <= k - delta + eps - e < 365);
}

/// Each year of an era starts where the one before it ends; the last one
/// ends with the era.
proof fn lemma_next_year_start(y: int)
    requires
        0 <= y < 400,
    ensures
        y < 399 ==> year_start(y + 1) == year_start(y) + year_len(y),
        y == 399 ==> year_start(y) + year_len(y) == 146097,
{
    let a = (y + 1) / 4 - y / 4;
    let b = (y + 1) / 100 - y / 100;
    assert(a == (if (y + 1) % 4 == 0 { 1int } else { 0int }));
    assert(b == (if (y + 1) % 100 == 0 { 1int } else { 0int }));
    assert((y + 1) % 100 == 0 ==> (y + 1) % 4 == 0);
}

/// Every day of an era is some day of some year of the era.
proof fn lemma_day_in_year(doe: int) -> (r: (int, int))
    requires
        0 <= doe < 146097,
    ensures
        0 <= r.0 < 400,
        0 <= r.1 < year_len(r.0),
        doe == year_start(r.0) + r.1,
    decreases doe,
{
    if doe == 0 {
        (0, 0)
    } else {
        let (y, k) = lemma_day_in_year(doe - 1);
        lemma_next_year_start(y);
        if k + 1 < year_len(y) {
            (y, k + 1)
        } else {
            (y + 1, 0)
        }
    }
}

/// The first day of month `mp` of a year, months counted from March.
spec fn month_start(mp: int) -> int {
    (153 * mp + 2) / 5
}

/// The month formula finds the last month that starts on or before `doy`.
proof fn lemma_month_of_day(doy: int, j: int)
    requires
        0 <= doy,
        0 <= j,
    ensures
        month_start(j) <= doy <==> j <= (5 * doy + 2) / 153,
{
    let mp = (5 * doy + 2) / 153;
    assert(153 * mp <= 5 * doy + 2 < 153 * mp + 153);
    let ms = (153 * j + 2) / 5;
    assert(5 * ms <= 153 * j + 2 < 5 * ms + 5);
    if j <= mp {
        assert(153 * j <= 153 * mp) by (nonlinear_arith)
            requires
                j <= mp,
        ;
    } else {
        assert(153 * (mp + 1) <= 153 * j) by (nonlinear_arith)
            requires
                mp + 1 <= j,
        ;
    }
}

/// The (year, month, day) of day `doy` of the era's year `yoe`, whose March
/// falls in year `base + yoe` of the calendar.
spec fn date_in_year(base: int, yoe: int, doy: int) -> (int, int, int) {
    let mp = (5 * doy + 2) / 153;
    let d = doy - (153 * mp + 2) / 5 + 1;
    let m = if mp < 10 { mp + 3 } else { mp - 9 };
    (if m <= 2 { base + yoe + 1 } else { base + yoe }, m, d)
}

/// Within a year the next day has the next date, and the day after the
/// year's last day is 1 March of the next; February has the days the year's
/// length leaves it.
proof fn lemma_next_day_in_year(base: int, yoe: int, doy: int, len: int)
    requires
        len == 365 || len == 366,
        0 <= doy < len,
        is_leap(base + yoe + 1) <==> len == 366,
    ensures
        doy + 1 < len ==> date_in_year(base, yoe, doy + 1) == next_date(date_in_year(base, yoe, doy)),
        doy + 1 == len ==> date_in_year(base, yoe + 1, 0) == next_date(date_in_year(base, yoe, doy)),
{
    let mp = (5 * doy + 2) / 153;
    lemma_month_of_day(doy, mp);
    lemma_month_of_day(doy, mp + 1);
    lemma_month_of_day(doy + 1, mp);
    lemma_month_of_day(doy + 1, mp + 1);
    lemma_month_of_day(doy + 1, mp + 2);
    assert(0 <= mp <= 11) by {
        lemma_month_of_day(doy, 12);
    }
    assert(month_start(0) == 0);
    assert(month_start(1) == 31);
    assert(month_start(2) == 61);
    assert(month_start(3) == 92);
    assert(month_start(4) == 122);
    assert(month_start(5) == 153);
    assert(month_start(6) == 184);
    assert(month_start(7) == 214);
    assert(month_start(8) == 245);
    assert(month_start(9) == 275);
    assert(month_start(10) == 306);
    assert(month_start(11) == 337);
    assert(month_start(12) == 367);
    assert(date_in_year(base, yoe + 1, 0) == (base + yoe + 1, 3int, 1int));
}

/// Year `y` of an era ends with a 29 February exactly when the calendar
/// year of that February is a leap year.
proof fn lemma_leap_in_era(era: int, y: int)
    requires
        0 <= y < 400,
    ensures
        is_leap(era * 400 + y + 1) <==> long_year(y),
{
    let yy = y + 1;
    vstd::arithmetic::div_mod::lemma_mod_multiples_vanish(100 * era, yy, 4);
    vstd::arithmetic::div_mod::lemma_mod_multiples_vanish(4 * era, yy, 100);
    vstd::arithmetic::div_mod::lemma_mod_multiples_vanish(era, yy, 400);
    assert(4 * (100 * era) + yy == era * 400 + y + 1);
    assert(100 * (4 * era) + yy == era * 400 + y + 1);
    assert(400 * era + yy == era * 400 + y + 1);
}

/// Day 0 is 1 January 1970.
pub proof fn civil_from_days_epoch()
    ensures
        civil_from_days(0) == (1970int, 1int, 1int),
{
    assert(719468int / 146097 == 4);
    assert(135080int / 1460 == 92);
    assert(135080int / 36524 == 3);
    assert(135080int / 146096 == 0);
    assert(134991int / 365 == 369);
    assert(369int / 4 == 92);
    assert(369int / 100 == 3);
    assert(1532int / 153 == 10);
    assert(1532int / 5 == 306);
}

/// The day after any day has the next date: together with the date of day
/// 0, this fixes the date of every day, before 1970 as after.
pub proof fn civil_from_days_next(days: int)
    ensures
        civil_from_days(days + 1) == next_date(civil_from_days(days)),
{
    let z = days + 719468;
    let era = z / 146097;
    let doe = z - era * 146097;
    lemma_era_bounds(days);
    let (y, k) = lemma_day_in_year(doe);
    lemma_year_of_day(y, k);
    let base = era * 400;
    lemma_leap_in_era(era, y);
    lemma_next_day_in_year(base, y, k, year_len(y));
    assert(civil_from_days(days) == date_in_year(base, y, k));
    if doe < 146096 {
        assert((z + 1) / 146097 == era);
        lemma_next_year_start(y);
        if k + 1 < year_len(y) {
            lemma_year_of_day(y, k + 1);
            assert(civil_from_days(days + 1) == date_in_year(base, y, k + 1));
        } else {
            assert(y < 399) by {
                if y == 399 {
                    assert(doe == 146096);
                }
            }
            lemma_year_of_day(y + 1, 0);
            assert(civil_from_days(days + 1) == date_in_year(base, y + 1, 0));
        }
    } else {
        assert(doe == 146096);
        assert((z + 1) / 146097 == era + 1);
        assert(year_of_era(146096) == 399);
        assert(y == 399 && k == 365);
        lemma_year_of_day(0, 0);
        assert(civil_from_days(days + 1) == date_in_year(base + 400, 0, 0));
        lemma_leap_in_era(era, 399);
        assert(date_in_year(base + 400, 0, 0) == (base + 400, 3int, 1int));
    }
}

/// A day of a year falls in a month between 1 and 12, on a day of that
/// month.
proof fn lemma_day_in_month(base: int, yoe: int, doy: int, len: int)
    requires
        len == 365 || len == 366,
        0 <= doy < len,
        is_leap(base + yoe + 1) <==> len == 366,
    ensures
        1 <= date_in_year(base, yoe, doy).1 <= 12,
        1 <= date_in_year(base, yoe, doy).2 <= days_in_month(
            date_in_year(base, yoe, doy).0,
            date_in_year(base, yoe, doy).1,
        ),
{
    let mp = (5 * doy + 2) / 153;
    lemma_month_of_day(doy, mp);
    lemma_month_of_day(doy, mp + 1);
    assert(0 <= mp <= 11) by {
        lemma_month_of_day(doy, 12);
    }
    assert(month_start(0) == 0);
    assert(month_start(1) == 31);
    assert(month_start(2) == 61);
    assert(month_start(3) == 92);
    assert(month_start(4) == 122);
    assert(month_start(5) == 153);
    assert(month_start(6) == 184);
    assert(month_start(7) == 214);
    assert(month_start(8) == 245);
    assert(month_start(9) == 275);
    assert(month_start(10) == 306);
    assert(month_start(11) == 337);
    assert(month_start(12) == 367);
}

/// The day of every date is a day of its month.
pub proof fn civil_from_days_day_in_month(days: int)
    ensures
        1 <= civil_from_days(days).1 <= 12,
        1 <= civil_from_days(days).2 <= days_in_month(civil_from_days(days).0, civil_from_days(days).1),
{
    let z = days + 719468;
    let era = z / 146097;
    let doe = z - era * 146097;
    lemma_era_bounds(days);
    let (y, k) = lemma_day_in_year(doe);
    lemma_year_of_day(y, k);
    let base = era * 400;
    lemma_leap_in_era(era, y);
    lemma_day_in_month(base, y, k, year_len(y));
    assert(civil_from_days(days) == date_in_year(base, y, k));
}

/// Date `a` comes before date `b` in the calendar.
pub open spec fn date_before(a: (int, int, int), b: (int, int, int)) -> bool {
    a.0 < b.0 || (a.0 == b.0 && (a.1 < b.1 || (a.1 == b.1 && a.2 < b.2)))
}

/// A later day has a later date.
pub proof fn civil_from_days_increasing(a: int, b: int)
    requires
        a < b,
    ensures
        date_before(civil_from_days(a), civil_from_days(b)),
    decreases b - a,
{
    civil_from_days_next(b - 1);
    civil_from_days_day_in_month(b - 1);
    if a < b - 1 {
        civil_from_days_increasing(a, b - 1);
    }
}

/// Different days have different dates.
pub proof fn civil_from_days_injective(a: int, b: int)
    requires
        civil_from_days(a) == civil_from_days(b),
    ensures
        a == b,
{
    if a < b {
        civil_from_days_increasing(a, b);
    } else if b < a {
        civil_from_days_increasing(b, a);
    }
}

} // verus!
