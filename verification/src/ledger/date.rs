//! The civil calendar: ISO-8601 literals to epoch seconds, the proleptic
//! Gregorian day count both directions, and date text for the presets.

use vstd::arithmetic::div_mod::lemma_fundamental_div_mod_converse;
use vstd::prelude::*;
use vstd::string::StringSliceAdditionalSpecFns;
use crate::ledger::format::DateUnit;
use crate::text::{decimal, pow10, push_int, push_str, push_two_digits, two_digits};

verus! {

/// Whether `y` is a leap year of the proleptic Gregorian calendar.
pub open spec fn is_leap(y: int) -> bool {
    (y % 4 == 0 && y % 100 != 0) || y % 400 == 0
}

/// The number of days in month `m` (1..=12) of year `y`.
pub open spec fn month_length(y: int, m: int) -> int {
    if m == 1 || m == 3 || m == 5 || m == 7 || m == 8 || m == 10 || m == 12 {
        31
    } else if m == 4 || m == 6 || m == 9 || m == 11 {
        30
    } else if is_leap(y) {
        29
    } else {
        28
    }
}

/// Days in the months of year `y` before month `m`.
pub open spec fn days_before_month(y: int, m: int) -> int
    decreases m,
{
    if m <= 1 {
        0
    } else {
        days_before_month(y, m - 1) + month_length(y, m - 1)
    }
}

/// Days in the calendar years before year `y`, counted from year 1: 365 a
/// year plus one per leap year (negative before year 1).
pub open spec fn days_before_year(y: int) -> int {
    365 * (y - 1) + (y - 1) / 4 - (y - 1) / 100 + (y - 1) / 400
}

/// The day number of a civil date, counted from 1970-01-01 = 0.
pub open spec fn epoch_day(y: int, m: int, d: int) -> int {
    days_before_year(y) + days_before_month(y, m) + d - 1 - days_before_year(1970)
}

/// A real calendar date.
pub open spec fn is_valid_date(y: int, m: int, d: int) -> bool {
    1 <= m <= 12 && 1 <= d <= month_length(y, m)
}

/// The years before `yy`, counted from year 0 up to `yy` (a March-based
/// year), regrouped by 400-year eras: `yy = 400 * era + yoe`.
proof fn lemma_era_split(yy: int, era: int, yoe: int)
    requires
        yy == era * 400 + yoe,
        0 <= yoe < 400,
    ensures
        365 * yy + yy / 4 - yy / 100 + yy / 400 == era * 146097 + 365 * yoe + yoe / 4 - yoe
            / 100,
{
    lemma_fundamental_div_mod_converse(yy, 4, era * 100 + yoe / 4, yoe % 4);
    lemma_fundamental_div_mod_converse(yy, 100, era * 4 + yoe / 100, yoe % 100);
    lemma_fundamental_div_mod_converse(yy, 400, era, yoe);
}

/// The March-based offset of a month: days from 1 March to the first of
/// the month `mp` months later, as `(153 * mp + 2) / 5` computes it.
proof fn lemma_month_offsets(y: int, m: int)
    requires
        1 <= m <= 12,
    ensures
        m >= 3 ==> days_before_month(y, m) == 59 + (if is_leap(y) { 1int } else { 0 }) + (153
            * (m - 3) + 2) / 5,
        m <= 2 ==> days_before_month(y, m) + 306 == (153 * (m + 9) + 2) / 5,
{
    reveal_with_fuel(days_before_month, 13);
}

/// Stepping a quotient by one: `y / k` exceeds `(y - 1) / k` exactly when
/// `k` divides `y`.
proof fn lemma_div_step(y: int, k: int)
    requires
        k > 0,
    ensures
        y / k == (y - 1) / k + (if y % k == 0 { 1int } else { 0 }),
{
    let q = (y - 1) / k;
    let r = (y - 1) % k;
    vstd::arithmetic::div_mod::lemma_fundamental_div_mod(y - 1, k);
    if r + 1 < k {
        lemma_fundamental_div_mod_converse(y, k, q, r + 1);
    } else {
        assert(y == (q + 1) * k) by (nonlinear_arith)
            requires y - 1 == q * k + r, r + 1 == k;
        lemma_fundamental_div_mod_converse(y, k, q + 1, 0);
    }
}

/// Divisibility by 400 implies by 100, and by 100 implies by 4.
proof fn lemma_divisor_chain(y: int)
    ensures
        y % 400 == 0 ==> y % 100 == 0,
        y % 100 == 0 ==> y % 4 == 0,
{
    if y % 400 == 0 {
        vstd::arithmetic::div_mod::lemma_fundamental_div_mod(y, 400);
        lemma_fundamental_div_mod_converse(y, 100, (y / 400) * 4, 0);
    }
    if y % 100 == 0 {
        vstd::arithmetic::div_mod::lemma_fundamental_div_mod(y, 100);
        lemma_fundamental_div_mod_converse(y, 4, (y / 100) * 25, 0);
    }
}

/// One more calendar year: the days of year `y` are 365, plus one when leap.
proof fn lemma_year_step(y: int)
    ensures
        days_before_year(y + 1) == days_before_year(y) + 365 + (if is_leap(y) { 1int } else { 0 }),
{
    lemma_div_step(y, 4);
    lemma_div_step(y, 100);
    lemma_div_step(y, 400);
    lemma_divisor_chain(y);
}

/// Year-of-era recovery: for a day `doe` of a 400-year era (counted from
/// 1 March of its first year), the formula picks the March-based year `yoe`
/// holding it, leaving `doy` within that year.
proof fn lemma_year_of_era(doe: u32)
    by (bit_vector)
    requires
        doe < 146097,
    ensures
        ({
            let yoe = (doe - doe / 1460 + doe / 36524 - doe / 146096) / 365;
            let start = 365 * yoe + yoe / 4 - yoe / 100;
            &&& yoe < 400
            &&& start <= doe
            &&& doe - start <= 365
            &&& (doe - start == 365 ==> ((yoe + 1) % 4 == 0 && ((yoe + 1) % 100 != 0 || yoe == 399)))
        }),
{
}

/// Month-of-year recovery inside a March-based year: `mp` months after
/// March, leaving a day of month within that month.
proof fn lemma_month_of_year(doy: u32)
    by (bit_vector)
    requires
        doy <= 365,
    ensures
        ({
            let mp = (5 * doy + 2) / 153;
            let start = (153 * mp + 2) / 5;
            &&& mp < 12
            &&& start <= doy
            &&& (mp < 11 ==> doy < (153 * (mp + 1) + 2) / 5)
        }),
{
}

/// The day count of a civil date, regrouped on a March-based year `yy` and
/// month `mp` (March = 0): the form the conversions compute.
proof fn lemma_march_form(y: int, m: int, d: int)
    requires
        1 <= m <= 12,
    ensures
        ({
            let yy = if m <= 2 { y - 1 } else { y };
            let mp = (m + 9) % 12;
            epoch_day(y, m, d) == 365 * yy + yy / 4 - yy / 100 + yy / 400 + (153 * mp + 2) / 5 + d
                - 1 - 719468
        }),
{
    lemma_month_offsets(y, m);
    lemma_year_step(y);
}

/// The calendar month a March-based month index lands in, and the day's
/// validity within it.
proof fn lemma_month_facts(year: int, m: int, mp: int, doy: int)
    requires
        0 <= mp < 12,
        m == (if mp < 10 { mp + 3 } else { mp - 9 }),
        (153 * mp + 2) / 5 <= doy <= 365,
        mp < 11 ==> doy < (153 * (mp + 1) + 2) / 5,
        (mp == 11 && doy == 365) ==> is_leap(year),
    ensures
        is_valid_date(year, m, doy - (153 * mp + 2) / 5 + 1),
        (m + 9) % 12 == mp,
{
    if mp == 0 {
    } else if mp == 1 {
    } else if mp == 2 {
    } else if mp == 3 {
    } else if mp == 4 {
    } else if mp == 5 {
    } else if mp == 6 {
    } else if mp == 7 {
    } else if mp == 8 {
    } else if mp == 9 {
    } else if mp == 10 {
    } else {
    }
}

/// Leap years repeat every 400 years.
proof fn lemma_leap_shift(era: int, k: int)
    ensures
        is_leap(era * 400 + k) == is_leap(k),
{
    let q4 = k / 4;
    let q100 = k / 100;
    let q400 = k / 400;
    vstd::arithmetic::div_mod::lemma_fundamental_div_mod(k, 4);
    vstd::arithmetic::div_mod::lemma_fundamental_div_mod(k, 100);
    vstd::arithmetic::div_mod::lemma_fundamental_div_mod(k, 400);
    lemma_fundamental_div_mod_converse(era * 400 + k, 4, era * 100 + q4, k % 4);
    lemma_fundamental_div_mod_converse(era * 400 + k, 100, era * 4 + q100, k % 100);
    lemma_fundamental_div_mod_converse(era * 400 + k, 400, era + q400, k % 400);
}

/// The calendar date a day number names.
pub open spec fn civil_of(z: int) -> (int, int, int) {
    choose|t: (int, int, int)| is_valid_date(t.0, t.1, t.2) && epoch_day(t.0, t.1, t.2) == z
}

/// The March-based year of a date: January and February (and any month
/// number up to 2) count with the year before.
pub open spec fn march_year(y: int, m: int) -> int {
    if m <= 2 {
        y - 1
    } else {
        y
    }
}

/// The day of its 400-year era on which a date falls, counted from
/// 1 March of the era's first year, for the date's month taken March-based
/// as `(m + 9) % 12` (any month number is read this way).
pub open spec fn day_of_era(y: int, m: int, d: int) -> int {
    let yoe = march_year(y, m) % 400;
    365 * yoe + yoe / 4 - yoe / 100 + (153 * ((m + 9) % 12) + 2) / 5 + d - 1
}

/// The day count the conversion computes for any month number: eras of
/// 146097 days plus the day of the era, shifted so 1970-01-01 is day 0.
/// For a real month it is `epoch_day`.
pub open spec fn day_number(y: int, m: int, d: int) -> int {
    (march_year(y, m) / 400) * 146097 + day_of_era(y, m, d) - 719468
}

/// The dates whose day count is computed without leaving `i64`: the
/// March-based year, its era's first year and the era's first day, and the
/// day count itself, all fit.
pub open spec fn day_count_fits(y: int, m: int, d: int) -> bool {
    let yy = march_year(y, m);
    let era_start = (yy / 400) * 146097;
    &&& i64::MIN <= yy
    &&& yy < 0 ==> i64::MIN <= yy - 399
    &&& i64::MIN <= era_start <= i64::MAX
    &&& era_start + day_of_era(y, m, d) <= i64::MAX
    &&& i64::MIN <= day_number(y, m, d) <= i64::MAX
}

/// For a real month the computed day count is the calendar's.
proof fn lemma_day_number_is_epoch_day(y: int, m: int, d: int)
    requires
        1 <= m <= 12,
    ensures
        day_number(y, m, d) == epoch_day(y, m, d),
{
    let yy = march_year(y, m);
    vstd::arithmetic::div_mod::lemma_fundamental_div_mod(yy, 400);
    lemma_era_split(yy, yy / 400, yy % 400);
    lemma_march_form(y, m, d);
}

/// A real date falls on one of the 146097 days of its era.
proof fn lemma_day_of_era_bounds(y: int, m: int, d: int)
    requires
        is_valid_date(y, m, d),
    ensures
        0 <= day_of_era(y, m, d) < 146097,
{
    let yoe = march_year(y, m) % 400;
    let doy = (153 * ((m + 9) % 12) + 2) / 5 + d - 1;
    assert(0 <= doy <= 365) by {
        if m == 2 {
        } else if m == 1 {
        } else if m == 3 {
        } else if m == 4 {
        } else if m == 5 {
        } else if m == 6 {
        } else if m == 7 {
        } else if m == 8 {
        } else if m == 9 {
        } else if m == 10 {
        } else if m == 11 {
        } else {
        }
    }
    assert(0 <= yoe < 400);
    assert(0 <= 365 * yoe + yoe / 4 - yoe / 100 <= 145731) by (nonlinear_arith)
        requires
            0 <= yoe < 400,
    ;
}

/// Days from 1970-01-01 for a civil date (proleptic Gregorian), for any
/// date on which that count stays within `i64`. A month number outside
/// 1..=12 is read March-based, as `(m + 9) % 12`.
pub fn days_from_civil(y: i64, m: u32, d: u32) -> (days: i64)
    requires
        day_count_fits(y as int, m as int, d as int),
    ensures
        days == day_number(y as int, m as int, d as int),
        1 <= m <= 12 ==> days == epoch_day(y as int, m as int, d as int),
{
    let ghost y0 = y as int;
    let y = if m <= 2 { y - 1 } else { y };
    let era = (if y >= 0 { y } else { y - 399 }) / 400;
    proof {
        vstd::arithmetic::div_mod::lemma_fundamental_div_mod(y as int, 400);
        assert(era == (y as int) / 400);
    }
    let yoe = y - era * 400;  // [0, 399]
    assert(yoe == (y as int) % 400);
    let mp = (m as i64 + 9) % 12;  // Mar=0 … Feb=11
    let doy = (153 * mp + 2) / 5 + d as i64 - 1;
    let doe = yoe * 365 + yoe / 4 - yoe / 100 + doy;
    let era_start = era * 146097;
    proof {
        if 1 <= m <= 12 {
            lemma_day_number_is_epoch_day(y0, m as int, d as int);
        }
    }
    era_start + doe - 719468
}

/// Every calendar date whose day count lies in the range `civil_from_days`
/// accepts can be handed back to `days_from_civil`.
pub proof fn law_dates_in_range_fit(y: int, m: int, d: int)
    requires
        is_valid_date(y, m, d),
        i64::MIN <= epoch_day(y, m, d) <= i64::MAX - 719468,
    ensures
        day_count_fits(y, m, d),
        i64::MIN <= y <= i64::MAX,
{
    lemma_day_number_is_epoch_day(y, m, d);
    lemma_day_of_era_bounds(y, m, d);
    let yy = march_year(y, m);
    let era = yy / 400;
    vstd::arithmetic::div_mod::lemma_fundamental_div_mod(yy, 400);
    assert(era * 146097 == epoch_day(y, m, d) + 719468 - day_of_era(y, m, d));
    assert(-63131837319417 <= era <= 63131837319416) by (nonlinear_arith)
        requires
            i64::MIN - 146097 <= era * 146097 <= i64::MAX,
    ;
    assert(era * 400 <= yy < era * 400 + 400);
}

/// Some calendar date falls on each day number: the date the conversion
/// back from day numbers computes, carried out on integers.
proof fn lemma_civil_witness(z: int) -> (t: (int, int, int))
    ensures
        is_valid_date(t.0, t.1, t.2),
        epoch_day(t.0, t.1, t.2) == z,
{
    let zz = z + 719468;
    let era = zz / 146097;
    let doe = zz % 146097;
    vstd::arithmetic::div_mod::lemma_fundamental_div_mod(zz, 146097);
    lemma_year_of_era(doe as u32);
    let yoe = (doe - doe / 1460 + doe / 36524 - doe / 146096) / 365;
    let y = yoe + era * 400;
    let doy = doe - (365 * yoe + yoe / 4 - yoe / 100);
    lemma_month_of_year(doy as u32);
    let mp = (5 * doy + 2) / 153;
    let d = doy - (153 * mp + 2) / 5 + 1;
    let m = if mp < 10 { mp + 3 } else { mp - 9 };
    let year = if m <= 2 { y + 1 } else { y };
    lemma_era_split(y, era, yoe);
    lemma_march_form(year, m, d);
    lemma_leap_shift(era, yoe + 1);
    lemma_month_facts(year, m, mp, doy);
    (year, m, d)
}

/// Day number to date and back: for every day number `civil_from_days`
/// accepts, the date it names is a real date, `days_from_civil` accepts it,
/// and gives the day number back.
pub proof fn law_days_round_trip(z: int)
    requires
        i64::MIN <= z <= i64::MAX - 719468,
    ensures
        is_valid_date(civil_of(z).0, civil_of(z).1, civil_of(z).2),
        day_count_fits(civil_of(z).0, civil_of(z).1, civil_of(z).2),
        day_number(civil_of(z).0, civil_of(z).1, civil_of(z).2) == z,
{
    let w = lemma_civil_witness(z);
    assert(is_valid_date(w.0, w.1, w.2) && epoch_day(w.0, w.1, w.2) == z);
    let t = civil_of(z);
    law_dates_in_range_fit(t.0, t.1, t.2);
    lemma_day_number_is_epoch_day(t.0, t.1, t.2);
}

/// The inverse: the civil `(year, month, day)` of a day number counted from
/// 1970-01-01.
pub fn civil_from_days(z: i64) -> (ymd: (i64, u32, u32))
    requires
        z <= i64::MAX - 719468,
    ensures
        is_valid_date(ymd.0 as int, ymd.1 as int, ymd.2 as int),
        epoch_day(ymd.0 as int, ymd.1 as int, ymd.2 as int) == z,
        (ymd.0 as int, ymd.1 as int, ymd.2 as int) == civil_of(z as int),
        day_count_fits(ymd.0 as int, ymd.1 as int, ymd.2 as int),
{
    let ghost z0 = z;
    let z = z + 719468;
    let era = (if z >= 0 { z } else { z - 146096 }) / 146097;
    assert(era * 146097 <= z < era * 146097 + 146097);
    let doe = z - era * 146097;  // [0, 146096]
    proof {
        lemma_year_of_era(doe as u32);
    }
    let yoe = (doe - doe / 1460 + doe / 36524 - doe / 146096) / 365;  // [0, 399]
    let y = yoe + era * 400;
    let doy = doe - (365 * yoe + yoe / 4 - yoe / 100);  // [0, 365]
    proof {
        lemma_month_of_year(doy as u32);
    }
    let mp = (5 * doy + 2) / 153;  // [0, 11]
    let d = (doy - (153 * mp + 2) / 5 + 1) as u32;  // [1, 31]
    let m = (if mp < 10 { mp + 3 } else { mp - 9 }) as u32;  // [1, 12]
    let year = if m <= 2 { y + 1 } else { y };
    proof {
        lemma_era_split(y as int, era as int, yoe as int);
        lemma_march_form(year as int, m as int, d as int);
        lemma_leap_shift(era as int, yoe + 1);
        lemma_month_facts(year as int, m as int, mp as int, doy as int);
    }
    proof {
        let w = (year as int, m as int, d as int);
        assert(is_valid_date(w.0, w.1, w.2) && epoch_day(w.0, w.1, w.2) == z0);
        let t = civil_of(z0 as int);
        law_epoch_day_injective(t.0, t.1, t.2, year as int, m as int, d as int);
        law_dates_in_range_fit(year as int, m as int, d as int);
    }
    (year, m, d)
}

/// The number of days in month `m` of year `y`; any month other than the
/// 31- and 30-day ones reads as February.
pub fn days_in_month(y: i64, m: u32) -> (n: u32)
    ensures
        n == month_length(y as int, m as int),
{
    match m {
        1 | 3 | 5 | 7 | 8 | 10 | 12 => 31,
        4 | 6 | 9 | 11 => 30,
        _ => {
            if (y % 4 == 0 && y % 100 != 0) || y % 400 == 0 {
                29
            } else {
                28
            }
        },
    }
}

/// Within a year, the months before `m` and the month itself fill at most
/// the year; the next month starts where this one ends.
proof fn lemma_month_bounds(y: int, m: int)
    requires
        1 <= m <= 12,
    ensures
        days_before_month(y, m) + month_length(y, m) <= 365 + (if is_leap(y) { 1int } else { 0 }),
        m < 12 ==> days_before_month(y, m + 1) == days_before_month(y, m) + month_length(y, m),
        days_before_month(y, m) >= 0,
{
    reveal_with_fuel(days_before_month, 13);
}

/// Months further into the year start no earlier.
proof fn lemma_month_order(y: int, m1: int, m2: int)
    requires
        1 <= m1 < m2 <= 12,
    ensures
        days_before_month(y, m1) + month_length(y, m1) <= days_before_month(y, m2),
    decreases m2 - m1,
{
    lemma_month_bounds(y, m1);
    if m1 + 1 < m2 {
        lemma_month_order(y, m1 + 1, m2);
        lemma_month_bounds(y, m1 + 1);
    }
}

/// Later years start after every day of an earlier one.
proof fn lemma_year_order(y1: int, y2: int)
    requires
        y1 < y2,
    ensures
        days_before_year(y1) + 365 + (if is_leap(y1) { 1int } else { 0 }) <= days_before_year(y2),
    decreases y2 - y1,
{
    lemma_year_step(y1);
    if y1 + 1 < y2 {
        lemma_year_order(y1 + 1, y2);
        lemma_year_step(y1 + 1);
    }
}

/// The day count is strictly increasing along the calendar order.
proof fn lemma_epoch_day_increasing(y1: int, m1: int, d1: int, y2: int, m2: int, d2: int)
    requires
        is_valid_date(y1, m1, d1),
        is_valid_date(y2, m2, d2),
        y1 < y2 || (y1 == y2 && (m1 < m2 || (m1 == m2 && d1 < d2))),
    ensures
        epoch_day(y1, m1, d1) < epoch_day(y2, m2, d2),
{
    lemma_month_bounds(y1, m1);
    lemma_month_bounds(y2, m2);
    if y1 < y2 {
        lemma_year_order(y1, y2);
    } else if m1 < m2 {
        lemma_month_order(y1, m1, m2);
    }
}

/// Distinct calendar dates have distinct day numbers: the day count names
/// each date once.
pub proof fn law_epoch_day_injective(y1: int, m1: int, d1: int, y2: int, m2: int, d2: int)
    requires
        is_valid_date(y1, m1, d1),
        is_valid_date(y2, m2, d2),
        epoch_day(y1, m1, d1) == epoch_day(y2, m2, d2),
    ensures
        y1 == y2 && m1 == m2 && d1 == d2,
{
    if y1 < y2 || (y1 == y2 && (m1 < m2 || (m1 == m2 && d1 < d2))) {
        lemma_epoch_day_increasing(y1, m1, d1, y2, m2, d2);
    } else if y2 < y1 || (y1 == y2 && (m2 < m1 || (m1 == m2 && d2 < d1))) {
        lemma_epoch_day_increasing(y2, m2, d2, y1, m1, d1);
    }
}

/// Converting a calendar date to its day number and back gives the date.
pub proof fn law_civil_round_trip(y: int, m: int, d: int)
    requires
        is_valid_date(y, m, d),
    ensures
        civil_of(epoch_day(y, m, d)) == (y, m, d),
{
    let w = (y, m, d);
    assert(is_valid_date(w.0, w.1, w.2) && epoch_day(w.0, w.1, w.2) == epoch_day(y, m, d));
    let t = civil_of(epoch_day(y, m, d));
    law_epoch_day_injective(t.0, t.1, t.2, y, m, d);
}

/// An ASCII decimal digit.
pub open spec fn is_digit(c: u8) -> bool {
    48 <= c <= 57
}

/// The number the ASCII digits `b[lo..hi]` spell.
pub open spec fn digits_value(b: Seq<u8>, lo: int, hi: int) -> int
    decreases hi - lo,
{
    if hi <= lo {
        0
    } else {
        digits_value(b, lo, hi - 1) * 10 + (b[hi - 1] - 48)
    }
}

/// `b[lo..hi]` read as a run of decimal digits, if it lies in `b` and is one.
pub open spec fn digit_run(b: Seq<u8>, lo: int, hi: int) -> Option<int> {
    if 0 <= lo <= hi <= b.len() && (forall|i: int| lo <= i < hi ==> is_digit(#[trigger] b[i])) {
        Some(digits_value(b, lo, hi))
    } else {
        None
    }
}

/// The `YYYY-MM-DD` head of an ISO literal as a day number: a real date,
/// dashes in place.
pub open spec fn iso_date_days(b: Seq<u8>) -> Option<int> {
    if b.len() < 10 || b[4] != 45 || b[7] != 45 {
        None
    } else {
        match (digit_run(b, 0, 4), digit_run(b, 5, 7), digit_run(b, 8, 10)) {
            (Some(y), Some(m), Some(d)) => if 1 <= m <= 12 && 1 <= d <= month_length(y, m) {
                Some(epoch_day(y, m, d))
            } else {
                None
            },
            _ => None,
        }
    }
}

/// The optional `THH:MM[:SS]` after the date: its seconds into the day and
/// where the literal continues.
pub open spec fn iso_clock(b: Seq<u8>) -> Option<(int, int)> {
    if b.len() > 10 && b[10] == 84 {
        if b.len() < 16 || b[13] != 58 {
            None
        } else {
            match (digit_run(b, 11, 13), digit_run(b, 14, 16)) {
                (Some(hh), Some(mm)) => {
                    let seconds: Option<(int, int)> = if b.len() > 16 && b[16] == 58 {
                        if b.len() < 19 {
                            None
                        } else {
                            match digit_run(b, 17, 19) {
                                Some(ss) => Some((ss, 19)),
                                None => None,
                            }
                        }
                    } else {
                        Some((0, 16))
                    };
                    match seconds {
                        Some((ss, next)) => if hh >= 24 || mm >= 60 || ss >= 60 {
                            None
                        } else {
                            Some((hh * 3600 + mm * 60 + ss, next))
                        },
                        None => None,
                    }
                },
                _ => None,
            }
        }
    } else {
        Some((0, 10))
    }
}

/// The zone suffix from index `i`: nothing, a final `Z`, or `±HH:MM` ending
/// the literal — as the seconds that bring the local reading to UTC.
pub open spec fn iso_zone(b: Seq<u8>, i: int) -> Option<int> {
    if i == b.len() {
        Some(0)
    } else if b[i] == 90 && i + 1 == b.len() {
        Some(0)
    } else if b[i] == 43 || b[i] == 45 {
        if b.len() != i + 6 || b[i + 3] != 58 {
            None
        } else {
            match (digit_run(b, i + 1, i + 3), digit_run(b, i + 4, i + 6)) {
                (Some(oh), Some(om)) => if oh >= 24 || om >= 60 {
                    None
                } else if b[i] == 43 {
                    Some(-(oh * 3600 + om * 60))
                } else {
                    Some(oh * 3600 + om * 60)
                },
                _ => None,
            }
        }
    } else {
        None
    }
}

/// An ISO-8601 literal's instant in epoch seconds: `YYYY-MM-DD`, optionally
/// `THH:MM[:SS]`, optionally `Z` / `±HH:MM`. A bare date is midnight UTC;
/// an offset keeps its instant.
pub open spec fn iso_instant(b: Seq<u8>) -> Option<int> {
    match iso_date_days(b) {
        Some(days) => match iso_clock(b) {
            Some((t, i)) => match iso_zone(b, i) {
                Some(off) => Some(days * 86400 + t + off),
                None => None,
            },
            None => None,
        },
        None => None,
    }
}

/// Read `b[lo..hi]` as decimal digits.
fn digits(b: &[u8], lo: usize, hi: usize) -> (r: Option<i64>)
    requires
        lo <= hi,
        hi - lo <= 4,
    ensures
        match r {
            Some(v) => digit_run(b@, lo as int, hi as int) == Some(v as int),
            None => digit_run(b@, lo as int, hi as int) is None,
        },
        r matches Some(v) ==> 0 <= v < pow10((hi - lo) as nat),
{
    if hi > b.len() {
        return None;
    }
    let mut v: i64 = 0;
    let mut k = lo;
    while k < hi
        invariant
            lo <= k <= hi <= b@.len(),
            hi - lo <= 4,
            forall|i: int| lo <= i < k ==> is_digit(#[trigger] b@[i]),
            v == digits_value(b@, lo as int, k as int),
            0 <= v < pow10((k - lo) as nat),
        decreases hi - k,
    {
        let c = b[k];
        if c < 48 || c > 57 {
            return None;
        }
        proof {
            reveal_with_fuel(pow10, 5);
        }
        v = v * 10 + (c - 48) as i64;
        k = k + 1;
    }
    Some(v)
}

/// Parse an ISO-8601 literal to epoch seconds: `YYYY-MM-DD`, optionally
/// `THH:MM[:SS]`, optionally `Z` / `±HH:MM`. `None` = not a date.
pub fn parse(s: &str) -> (r: Option<i64>)
    ensures
        match r {
            Some(v) => iso_instant(s.spec_bytes()) == Some(v as int),
            None => iso_instant(s.spec_bytes()) is None,
        },
{
    let b = s.as_bytes();
    let ghost bs = b@;
    if b.len() < 10 || b[4] != 45u8 || b[7] != 45u8 {
        return None;
    }
    let y = match digits(b, 0, 4) {
        Some(v) => v,
        None => return None,
    };
    let m = match digits(b, 5, 7) {
        Some(v) => v,
        None => return None,
    };
    let d = match digits(b, 8, 10) {
        Some(v) => v,
        None => return None,
    };
    if m < 1 || m > 12 || d < 1 || d > days_in_month(y, m as u32) as i64 {
        return None;
    }
    proof {
        reveal_with_fuel(pow10, 5);
        let lo = (0int, 1int, 1int);
        let hi = (10000int, 1int, 1int);
        if !(y == 0 && m == 1 && d == 1) {
            lemma_epoch_day_increasing(lo.0, lo.1, lo.2, y as int, m as int, d as int);
        }
        lemma_epoch_day_increasing(y as int, m as int, d as int, hi.0, hi.1, hi.2);
    }
    let mut secs: i64 = days_from_civil(y, m as u32, d as u32) * 86400;
    let mut i: usize = 10;
    let mut clock: i64 = 0;
    if i < b.len() && b[i] == 84u8 {
        if b.len() < i + 6 || b[i + 3] != 58u8 {
            return None;
        }
        let hh = match digits(b, i + 1, i + 3) {
            Some(v) => v,
            None => return None,
        };
        let mm = match digits(b, i + 4, i + 6) {
            Some(v) => v,
            None => return None,
        };
        i = i + 6;
        let ss = if i < b.len() && b[i] == 58u8 {
            if b.len() < i + 3 {
                return None;
            }
            let v = match digits(b, i + 1, i + 3) {
                Some(v) => v,
                None => return None,
            };
            i = i + 3;
            v
        } else {
            0
        };
        if hh >= 24 || mm >= 60 || ss >= 60 {
            return None;
        }
        clock = hh * 3600 + mm * 60 + ss;
    }
    assert(iso_clock(bs) == Some((clock as int, i as int)));
    secs = secs + clock;
    let off: i64 = if i == b.len() {
        0
    } else if b[i] == 90u8 && i + 1 == b.len() {
        0
    } else if b[i] == 43u8 || b[i] == 45u8 {
        if b.len() != i + 6 || b[i + 3] != 58u8 {
            return None;
        }
        let oh = match digits(b, i + 1, i + 3) {
            Some(v) => v,
            None => return None,
        };
        let om = match digits(b, i + 4, i + 6) {
            Some(v) => v,
            None => return None,
        };
        if oh >= 24 || om >= 60 {
            return None;
        }
        // The literal is local to its offset; normalize to the instant.
        if b[i] == 43u8 {
            -(oh * 3600 + om * 60)
        } else {
            oh * 3600 + om * 60
        }
    } else {
        return None;
    };
    Some(secs + off)
}

/// The three-letter English abbreviation of month `m`.
pub open spec fn month_abbrev(m: int) -> Seq<char> {
    if m == 1 {
        "Jan"@
    } else if m == 2 {
        "Feb"@
    } else if m == 3 {
        "Mar"@
    } else if m == 4 {
        "Apr"@
    } else if m == 5 {
        "May"@
    } else if m == 6 {
        "Jun"@
    } else if m == 7 {
        "Jul"@
    } else if m == 8 {
        "Aug"@
    } else if m == 9 {
        "Sep"@
    } else if m == 10 {
        "Oct"@
    } else if m == 11 {
        "Nov"@
    } else {
        "Dec"@
    }
}

fn month_name(m: u32) -> (s: &'static str)
    requires
        1 <= m <= 12,
    ensures
        s@ == month_abbrev(m as int),
{
    match m {
        1 => "Jan",
        2 => "Feb",
        3 => "Mar",
        4 => "Apr",
        5 => "May",
        6 => "Jun",
        7 => "Jul",
        8 => "Aug",
        9 => "Sep",
        10 => "Oct",
        11 => "Nov",
        _ => "Dec",
    }
}

/// `HH:MM` of a time of day in seconds.
pub open spec fn clock_text(tod: int) -> Seq<char> {
    two_digits(tod / 3600) + ":"@ + two_digits((tod % 3600) / 60)
}

/// A tick instant's text at a preset's granularity: `2026`, `Mar 2026`,
/// `Mar 4`, `09:30` — the UTC calendar date of the instant's day.
pub open spec fn render_text(secs: int, unit: DateUnit) -> Seq<char> {
    let (y, m, d) = civil_of(secs / 86400);
    let tod = secs % 86400;
    match unit {
        DateUnit::Year => decimal(y),
        DateUnit::Month => month_abbrev(m) + " "@ + decimal(y),
        DateUnit::Day => month_abbrev(m) + " "@ + decimal(d),
        DateUnit::Hour | DateUnit::Minute => clock_text(tod),
    }
}

/// A datum's full instant for hover text: `Mar 4 2026`, plus `, 09:30` when
/// it carries a time of day.
pub open spec fn render_full_text(secs: int) -> Seq<char> {
    let (y, m, d) = civil_of(secs / 86400);
    let tod = secs % 86400;
    let date = month_abbrev(m) + " "@ + decimal(d) + " "@ + decimal(y);
    if tod == 0 {
        date
    } else {
        date + ", "@ + clock_text(tod)
    }
}

/// Floor division by a day: the day number and the second within it.
fn split_day(secs: i64) -> (r: (i64, i64))
    ensures
        r.0 == secs / 86400,
        r.1 == secs % 86400,
{
    let mut q = secs / 86400;
    let mut rem = secs % 86400;
    if rem < 0 {
        q = q - 1;
        rem = rem + 86400;
    }
    proof {
        lemma_fundamental_div_mod_converse(secs as int, 86400, q as int, rem as int);
    }
    (q, rem)
}

fn push_clock(s: &mut String, tod: i64)
    requires
        0 <= tod < 86400,
    ensures
        final(s)@ == old(s)@ + clock_text(tod as int),
{
    push_two_digits(s, (tod / 3600) as u64);
    push_str(s, ":");
    push_two_digits(s, ((tod % 3600) / 60) as u64);
    proof {
        assert(final(s)@ =~= old(s)@ + clock_text(tod as int));
    }
}

/// A tick instant's text at a preset's granularity (epoch seconds, UTC).
pub fn render(secs: i64, unit: DateUnit) -> (t: String)
    ensures
        t@ == render_text(secs as int, unit),
{
    let (days, tod) = split_day(secs);
    let (y, m, d) = civil_from_days(days);
    let mut s = String::new();
    match unit {
        DateUnit::Year => push_int(&mut s, y),
        DateUnit::Month => {
            push_str(&mut s, month_name(m));
            push_str(&mut s, " ");
            push_int(&mut s, y);
        },
        DateUnit::Day => {
            push_str(&mut s, month_name(m));
            push_str(&mut s, " ");
            push_int(&mut s, d as i64);
        },
        DateUnit::Hour | DateUnit::Minute => push_clock(&mut s, tod),
    }
    proof {
        assert(s@ =~= render_text(secs as int, unit));
    }
    s
}

/// A datum's full instant for hover text (epoch seconds, UTC).
pub fn render_full(secs: i64) -> (t: String)
    ensures
        t@ == render_full_text(secs as int),
{
    let (days, tod) = split_day(secs);
    let (y, m, d) = civil_from_days(days);
    let mut s = String::new();
    push_str(&mut s, month_name(m));
    push_str(&mut s, " ");
    push_int(&mut s, d as i64);
    push_str(&mut s, " ");
    push_int(&mut s, y);
    if tod != 0 {
        push_str(&mut s, ", ");
        push_clock(&mut s, tod);
    }
    proof {
        assert(s@ =~= render_full_text(secs as int));
    }
    s
}

/// A number below 100 as two ASCII digits.
pub open spec fn two_digit_bytes(v: int) -> Seq<u8> {
    seq![(48 + v / 10) as u8, (48 + v % 10) as u8]
}

/// The zone suffix `+HH:MM` (or `-HH:MM`) for an offset of `oh` hours and
/// `om` minutes.
pub open spec fn zone_suffix(plus: bool, oh: int, om: int) -> Seq<u8> {
    seq![if plus { 43u8 } else { 45u8 }] + two_digit_bytes(oh) + seq![58u8] + two_digit_bytes(om)
}

/// Digit runs that lie where two byte strings agree read the same.
proof fn lemma_digit_run_agree(a: Seq<u8>, b: Seq<u8>, lo: int, hi: int)
    requires
        0 <= lo <= hi,
        hi <= a.len(),
        hi <= b.len(),
        forall|k: int| lo <= k < hi ==> a[k] == b[k],
    ensures
        digit_run(a, lo, hi) == digit_run(b, lo, hi),
{
    lemma_digits_value_agree(a, b, lo, hi);
}

/// Digit values over a stretch where two byte strings agree are equal.
proof fn lemma_digits_value_agree(a: Seq<u8>, b: Seq<u8>, lo: int, hi: int)
    requires
        0 <= lo <= hi,
        hi <= a.len(),
        hi <= b.len(),
        forall|k: int| lo <= k < hi ==> a[k] == b[k],
    ensures
        digits_value(a, lo, hi) == digits_value(b, lo, hi),
    decreases hi - lo,
{
    if lo < hi {
        lemma_digits_value_agree(a, b, lo, hi - 1);
        assert(a[hi - 1] == b[hi - 1]);
    }
}

/// Two ASCII digits read back as the number they spell.
proof fn lemma_two_digit_run(b: Seq<u8>, lo: int, v: int)
    requires
        0 <= v < 100,
        0 <= lo,
        lo + 2 <= b.len(),
        b[lo] == two_digit_bytes(v)[0],
        b[lo + 1] == two_digit_bytes(v)[1],
    ensures
        digit_run(b, lo, lo + 2) == Some(v),
{
    assert(b[lo] == 48 + v / 10);
    assert(b[lo + 1] == 48 + v % 10);
    assert(digits_value(b, lo, lo) == 0);
    assert(digits_value(b, lo, lo + 1) == v / 10);
    assert(digits_value(b, lo, lo + 2) == v);
}

/// A zone offset moves the instant by exactly its hours and minutes: a
/// literal read with `+HH:MM` is the same clock read in UTC (`Z`) minus
/// `HH` hours and `MM` minutes, and with `-HH:MM` plus them.
pub proof fn law_zone_offset_shifts_instant(h: Seq<u8>, plus: bool, oh: int, om: int)
    requires
        0 <= oh < 24,
        0 <= om < 60,
        iso_instant(h + seq![90u8]) is Some,
    ensures
        iso_instant(h + zone_suffix(plus, oh, om)) == Some(
            if plus {
                iso_instant(h + seq![90u8])->0 - (oh * 3600 + om * 60)
            } else {
                iso_instant(h + seq![90u8])->0 + (oh * 3600 + om * 60)
            },
        ),
{
    let n = h.len() as int;
    let w = h + seq![90u8];
    let z = h + zone_suffix(plus, oh, om);
    assert(w[n] == 90u8);
    assert(z.len() == n + 6);
    assert(z[n] == (if plus { 43u8 } else { 45u8 }));
    assert(z[n + 3] == 58u8);
    assert forall|k: int| 0 <= k < n implies w[k] == z[k] && w[k] == h[k] by {}
    assert(!is_digit(90u8));
    // The literal's date and clock end where `h` ends.
    assert(n >= 10) by {
        if n < 10 {
            assert(digit_run(w, 8, 10) is Some);
            assert(is_digit(w[n]));
        }
    }
    let (t, i) = iso_clock(w)->0;
    assert(i == n) by {
        if i == 16 && n == 15 {
            assert(is_digit(w[15]));
        } else if i == 19 && n == 18 {
            assert(is_digit(w[18]));
        } else if i < w.len() && (w[i] == 43 || w[i] == 45) {
            assert(w.len() == i + 6);
            assert(digit_run(w, i + 4, i + 6) is Some);
            assert(is_digit(w[n]));
        }
    }
    lemma_digit_run_agree(w, z, 0, 4);
    lemma_digit_run_agree(w, z, 5, 7);
    lemma_digit_run_agree(w, z, 8, 10);
    if n >= 16 {
        lemma_digit_run_agree(w, z, 11, 13);
        lemma_digit_run_agree(w, z, 14, 16);
    }
    if n >= 19 {
        lemma_digit_run_agree(w, z, 17, 19);
    }
    assert(iso_date_days(z) == iso_date_days(w));
    assert(iso_clock(z) == iso_clock(w));
    lemma_two_digit_run(z, n + 1, oh);
    lemma_two_digit_run(z, n + 4, om);
}

/// A number below 10000 as four ASCII digits.
pub open spec fn four_digit_bytes(v: int) -> Seq<u8> {
    seq![(48 + v / 1000) as u8, (48 + (v / 100) % 10) as u8, (48 + (v / 10) % 10) as u8, (48 + v % 10) as u8]
}

/// The `YYYY-MM-DD` literal of a date.
pub open spec fn date_literal(y: int, m: int, d: int) -> Seq<u8> {
    four_digit_bytes(y) + seq![45u8] + two_digit_bytes(m) + seq![45u8] + two_digit_bytes(d)
}

/// The `THH:MM` clock of a literal.
pub open spec fn clock_literal(hh: int, mm: int) -> Seq<u8> {
    seq![84u8] + two_digit_bytes(hh) + seq![58u8] + two_digit_bytes(mm)
}

/// The `:SS` seconds of a literal's clock.
pub open spec fn seconds_literal(ss: int) -> Seq<u8> {
    seq![58u8] + two_digit_bytes(ss)
}

/// Four ASCII digits read back as the number they spell.
proof fn lemma_four_digit_run(b: Seq<u8>, lo: int, v: int)
    requires
        0 <= v < 10000,
        0 <= lo,
        lo + 4 <= b.len(),
        b[lo] == four_digit_bytes(v)[0],
        b[lo + 1] == four_digit_bytes(v)[1],
        b[lo + 2] == four_digit_bytes(v)[2],
        b[lo + 3] == four_digit_bytes(v)[3],
    ensures
        digit_run(b, lo, lo + 4) == Some(v),
{
    assert(digits_value(b, lo, lo) == 0);
    assert(digits_value(b, lo, lo + 1) == v / 1000);
    assert(digits_value(b, lo, lo + 2) == v / 100) by {
        assert(v / 100 == (v / 1000) * 10 + (v / 100) % 10);
    }
    assert(digits_value(b, lo, lo + 3) == v / 10) by {
        assert(v / 10 == (v / 100) * 10 + (v / 10) % 10);
    }
    assert(digits_value(b, lo, lo + 4) == v);
}

/// A literal that begins with a date's `YYYY-MM-DD` reads that date's day.
proof fn lemma_date_head(b: Seq<u8>, y: int, m: int, d: int)
    requires
        0 <= y <= 9999,
        is_valid_date(y, m, d),
        b.len() >= 10,
        b.take(10) == date_literal(y, m, d),
    ensures
        iso_date_days(b) == Some(epoch_day(y, m, d)),
{
    let t = date_literal(y, m, d);
    assert forall|k: int| 0 <= k < 10 implies b[k] == t[k] by {
        assert(b.take(10)[k] == b[k]);
    }
    lemma_four_digit_run(b, 0, y);
    lemma_two_digit_run(b, 5, m);
    lemma_two_digit_run(b, 8, d);
}

/// A bare date literal, with or without `Z`.
proof fn lemma_bare_literal(y: int, m: int, d: int, zulu: bool)
    requires
        0 <= y <= 9999,
        is_valid_date(y, m, d),
    ensures
        iso_instant(date_literal(y, m, d) + (if zulu { seq![90u8] } else { Seq::empty() })) == Some(
            epoch_day(y, m, d) * 86400,
        ),
{
    let b = date_literal(y, m, d) + (if zulu { seq![90u8] } else { Seq::empty() });
    assert(b.take(10) =~= date_literal(y, m, d));
    lemma_date_head(b, y, m, d);
    if zulu {
        assert(b[10] == 90u8);
    }
}

/// A date literal with a `THH:MM` clock, with or without `Z`.
proof fn lemma_clock_literal(y: int, m: int, d: int, hh: int, mm: int, zulu: bool)
    requires
        0 <= y <= 9999,
        is_valid_date(y, m, d),
        0 <= hh < 24,
        0 <= mm < 60,
    ensures
        iso_instant(date_literal(y, m, d) + clock_literal(hh, mm) + (if zulu { seq![90u8] } else { Seq::empty() }))
            == Some(epoch_day(y, m, d) * 86400 + hh * 3600 + mm * 60),
{
    let b = date_literal(y, m, d) + clock_literal(hh, mm) + (if zulu { seq![90u8] } else { Seq::empty() });
    assert(b.take(10) =~= date_literal(y, m, d));
    lemma_date_head(b, y, m, d);
    assert(b[10] == 84u8 && b[13] == 58u8);
    lemma_two_digit_run(b, 11, hh);
    lemma_two_digit_run(b, 14, mm);
    if zulu {
        assert(b[16] == 90u8);
        assert(b.len() == 17);
    } else {
        assert(b.len() == 16);
    }
    assert(iso_clock(b) == Some((hh * 3600 + mm * 60, 16int)));
}

/// A date literal with a `THH:MM:SS` clock, with or without `Z`.
proof fn lemma_seconds_literal(y: int, m: int, d: int, hh: int, mm: int, ss: int, zulu: bool)
    requires
        0 <= y <= 9999,
        is_valid_date(y, m, d),
        0 <= hh < 24,
        0 <= mm < 60,
        0 <= ss < 60,
    ensures
        iso_instant(
            date_literal(y, m, d) + clock_literal(hh, mm) + seconds_literal(ss) + (if zulu {
                seq![90u8]
            } else {
                Seq::empty()
            }),
        ) == Some(epoch_day(y, m, d) * 86400 + hh * 3600 + mm * 60 + ss),
{
    let b = date_literal(y, m, d) + clock_literal(hh, mm) + seconds_literal(ss) + (if zulu {
        seq![90u8]
    } else {
        Seq::empty()
    });
    assert(b.take(10) =~= date_literal(y, m, d));
    lemma_date_head(b, y, m, d);
    assert(b[10] == 84u8 && b[13] == 58u8 && b[16] == 58u8);
    lemma_two_digit_run(b, 11, hh);
    lemma_two_digit_run(b, 14, mm);
    lemma_two_digit_run(b, 17, ss);
    if zulu {
        assert(b[19] == 90u8);
        assert(b.len() == 20);
    } else {
        assert(b.len() == 19);
    }
    assert(iso_clock(b) == Some((hh * 3600 + mm * 60 + ss, 19int)));
}

/// An ISO literal reads its fields: a bare date (or one marked `Z`) is
/// that day's midnight UTC, and a `THH:MM` clock, with or without `:SS`
/// and with or without `Z`, adds its hours, minutes and seconds.
pub proof fn law_iso_literal_fields(y: int, m: int, d: int, hh: int, mm: int, ss: int)
    requires
        0 <= y <= 9999,
        is_valid_date(y, m, d),
        0 <= hh < 24,
        0 <= mm < 60,
        0 <= ss < 60,
    ensures
        iso_instant(date_literal(y, m, d)) == Some(epoch_day(y, m, d) * 86400),
        iso_instant(date_literal(y, m, d) + seq![90u8]) == Some(epoch_day(y, m, d) * 86400),
        iso_instant(date_literal(y, m, d) + clock_literal(hh, mm)) == Some(
            epoch_day(y, m, d) * 86400 + hh * 3600 + mm * 60,
        ),
        iso_instant(date_literal(y, m, d) + clock_literal(hh, mm) + seq![90u8]) == Some(
            epoch_day(y, m, d) * 86400 + hh * 3600 + mm * 60,
        ),
        iso_instant(date_literal(y, m, d) + clock_literal(hh, mm) + seconds_literal(ss)) == Some(
            epoch_day(y, m, d) * 86400 + hh * 3600 + mm * 60 + ss,
        ),
        iso_instant(date_literal(y, m, d) + clock_literal(hh, mm) + seconds_literal(ss) + seq![90u8]) == Some(
            epoch_day(y, m, d) * 86400 + hh * 3600 + mm * 60 + ss,
        ),
{
    let dl = date_literal(y, m, d);
    let c = clock_literal(hh, mm);
    let sl = seconds_literal(ss);
    lemma_bare_literal(y, m, d, false);
    lemma_bare_literal(y, m, d, true);
    assert(dl + Seq::<u8>::empty() =~= dl);
    lemma_clock_literal(y, m, d, hh, mm, false);
    lemma_clock_literal(y, m, d, hh, mm, true);
    assert(dl + c + Seq::<u8>::empty() =~= dl + c);
    lemma_seconds_literal(y, m, d, hh, mm, ss, false);
    lemma_seconds_literal(y, m, d, hh, mm, ss, true);
    assert(dl + c + sl + Seq::<u8>::empty() =~= dl + c + sl);
}
} // verus!
