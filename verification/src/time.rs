//! Calendar arithmetic on Julian day numbers.
//!
//! Simulation time is counted in seconds from J2000.0, which falls at noon on
//! the day whose Julian day number is [`J2000_JULIAN_DAY_NUMBER`]. Converting
//! between that count and a proleptic Gregorian calendar date goes through
//! the whole-day count alone, in integer arithmetic, so the 2.45e6-day offset
//! never costs any precision. This module holds that integer core: the date to
//! day-number conversion and its inverse, and the formatting of a date and
//! clock time as text.

use vstd::prelude::*;
use vstd::arithmetic::div_mod::{
    lemma_fundamental_div_mod,
    lemma_fundamental_div_mod_converse,
    lemma_mod_bound,
};

verus! {

/// Julian day number of 2000-01-01, the day of the J2000.0 epoch.
pub const J2000_JULIAN_DAY_NUMBER: i64 = 2_451_545;

/// Largest magnitude of day number accepted by [`julian_day_to_gregorian`]:
/// four times it, plus a small offset, must still fit in an `i64`.
pub const MAX_JULIAN_DAY_MAGNITUDE: i64 = 1_152_921_504_606_846_975;

/// Day number of 1 March of the year −4800, the first day of the supported
/// range.
pub const FIRST_JULIAN_DAY: i64 = -32_044;

/// Integer division rounding towards zero, as machine division does.
pub open spec fn trunc_div(a: int, b: int) -> int {
    if a >= 0 {
        a / b
    } else {
        -((-a) / b)
    }
}

/// Whether a proleptic Gregorian year has a 29 February.
pub open spec fn is_leap_year(year: int) -> bool {
    year % 4 == 0 && (year % 100 != 0 || year % 400 == 0)
}

/// Number of days in a month of the proleptic Gregorian calendar.
pub open spec fn days_in_month(year: int, month: int) -> int {
    if month == 2 {
        if is_leap_year(year) {
            29
        } else {
            28
        }
    } else if month == 4 || month == 6 || month == 9 || month == 11 {
        30
    } else {
        31
    }
}

/// Whether `(year, month, day)` names a day of the proleptic Gregorian
/// calendar, `month` being 1-based.
pub open spec fn is_valid_date(year: int, month: int, day: int) -> bool {
    1 <= month <= 12 && 1 <= day <= days_in_month(year, month)
}

/// The year counted from March, offset so that it starts at zero on
/// 1 March of the proleptic year −4800: January and February belong to the
/// previous such year, so a leap day always ends one.
pub open spec fn march_year(year: int, month: int) -> int {
    year + 4800 - (if month <= 2 {
        1int
    } else {
        0int
    })
}

/// Whether a date lies on or after 1 March of the year −4800, from which on
/// the day-number arithmetic is exact in both directions.
pub open spec fn in_supported_range(year: int, month: int, day: int) -> bool {
    is_valid_date(year, month, day) && march_year(year, month) >= 0
}

/// Julian day number of noon on a proleptic Gregorian date (Fliegel and
/// Van Flandern), evaluated with machine division.
pub open spec fn julian_day_number(year: int, month: int, day: int) -> int {
    let a = trunc_div(14 - month, 12);
    let y = year + 4800 - a;
    let m = month + 12 * a - 3;
    day + trunc_div(153 * m + 2, 5) + 365 * y + trunc_div(y, 4) - trunc_div(y, 100) + trunc_div(
        y,
        400,
    ) - 32045
}

/// The same algorithm run backwards: the `(year, month, day)` of a Julian day
/// number, evaluated with machine division.
pub open spec fn civil_from_julian_day(jdn: int) -> (int, int, int) {
    let l0 = jdn + 68569;
    let n = trunc_div(4 * l0, 146097);
    let l1 = l0 - trunc_div(146097 * n + 3, 4);
    let i = trunc_div(4000 * (l1 + 1), 1461001);
    let l2 = l1 - trunc_div(1461 * i, 4) + 31;
    let j = trunc_div(80 * l2, 2447);
    let day = l2 - trunc_div(2447 * j, 80);
    let k = trunc_div(j, 11);
    (100 * (n - 49) + i + k, j + 2 - 12 * k, day)
}

/// Julian day number of noon on a proleptic Gregorian date.
///
/// `month` is 1-based.
pub fn gregorian_to_julian_day(year: i32, month: u32, day: u32) -> (jdn: i64)
    ensures
        jdn == julian_day_number(year as int, month as int, day as int),
        in_supported_range(year as int, month as int, day as int) ==> civil_from_julian_day(jdn as int) == (
        year as int, month as int, day as int),
{
    proof {
        if in_supported_range(year as int, month as int, day as int) {
            lemma_julian_day_round_trip(year as int, month as int, day as int);
        }
    }
    let (year, month) = (year as i64, month as i64);
    let a = (14 - month) / 12;
    let y = year + 4800 - a;
    let m = month + 12 * a - 3;
    day as i64 + (153 * m + 2) / 5 + 365 * y + y / 4 - y / 100 + y / 400 - 32_045
}

/// Machine division by a positive constant stays within one divisor of the
/// numerator, with the remainder taking the numerator's sign.
proof fn lemma_trunc_div_bounds(a: int, b: int)
    requires
        b > 0,
    ensures
        a >= 0 ==> 0 <= a - b * trunc_div(a, b) < b,
        a < 0 ==> -b < a - b * trunc_div(a, b) <= 0,
{
    if a >= 0 {
        lemma_fundamental_div_mod(a, b);
        lemma_mod_bound(a, b);
    } else {
        lemma_fundamental_div_mod(-a, b);
        lemma_mod_bound(-a, b);
        let q = (-a) / b;
        assert(b * (-q) == -(b * q)) by (nonlinear_arith);
    }
}

/// Decomposes a date into proleptic Gregorian `(year, month, day)`.
///
/// `month` is 1-based. Whatever the argument, the result is the inverse
/// algorithm's; on the supported range it is the date whose day number is
/// `jdn` (see [`lemma_julian_day_round_trip`]).
#[verifier::rlimit(50)]
pub fn julian_day_to_gregorian(jdn: i64) -> (date: (i32, u32, u32))
    requires
        -MAX_JULIAN_DAY_MAGNITUDE <= jdn <= MAX_JULIAN_DAY_MAGNITUDE,
    ensures
        date.0 == civil_from_julian_day(jdn as int).0 as i32,
        date.1 == civil_from_julian_day(jdn as int).1 as u32,
        date.2 == civil_from_julian_day(jdn as int).2 as u32,
        jdn >= FIRST_JULIAN_DAY ==> {
            let (year, month, day) = civil_from_julian_day(jdn as int);
            in_supported_range(year, month, day) && julian_day_number(year, month, day) == jdn
        },
{
    proof {
        if jdn >= FIRST_JULIAN_DAY {
            lemma_julian_day_inverse(jdn as int);
        }
    }
    let l0 = jdn + 68_569;
    let n = 4 * l0 / 146_097;
    assert(n == trunc_div(4 * l0, 146097));
    proof {
        lemma_trunc_div_bounds(4 * l0, 146097);
    }
    let q = (146_097 * n + 3) / 4;
    assert(q == trunc_div(146097 * n + 3, 4));
    proof {
        lemma_trunc_div_bounds(146097 * n + 3, 4);
    }
    let l1 = l0 - q;
    assert(-36528 <= l1 <= 36528);
    let i = 4000 * (l1 + 1) / 1_461_001;
    assert(i == trunc_div(4000 * (l1 + 1), 1461001));
    proof {
        lemma_trunc_div_bounds(4000 * (l1 + 1), 1461001);
    }
    assert(-101 <= i <= 101);
    let l2 = l1 - 1461 * i / 4 + 31;
    assert(l2 == l1 - trunc_div(1461 * i, 4) + 31);
    proof {
        lemma_trunc_div_bounds(1461 * i, 4);
    }
    let j = 80 * l2 / 2447;
    assert(j == trunc_div(80 * l2, 2447));
    proof {
        lemma_trunc_div_bounds(80 * l2, 2447);
    }
    let day = l2 - 2447 * j / 80;
    let k = j / 11;
    let month = j + 2 - 12 * k;
    let year = 100 * (n - 49) + i + k;
    (year as i32, month as u32, day as u32)
}

/// Facts about the day of the March-based year: `m` is the month counted from
/// March (0 to 11), `offset` the number of days before it in such a year.
proof fn lemma_month_offset(m: int, day: int)
    requires
        0 <= m <= 11,
        1 <= day,
        m == 11 ==> day <= 29,
        (m == 1 || m == 3 || m == 6 || m == 8) ==> day <= 30,
        day <= 31,
    ensures
        ({
            let offset = trunc_div(153 * m + 2, 5);
            let t = offset + day - 1;
            &&& 0 <= t <= 365
            &&& t == 365 ==> m == 11 && day == 29
            &&& trunc_div(80 * (t + 31), 2447) == m + 1
            &&& trunc_div(2447 * (m + 1), 80) == offset + 30
        }),
{
    let offset = (153 * m + 2) / 5;
    lemma_fundamental_div_mod(153 * m + 2, 5);
    lemma_mod_bound(153 * m + 2, 5);
    let t = offset + day - 1;
    assert(0 <= 80 * (t + 31) - 2447 * (m + 1) < 2447);
    lemma_fundamental_div_mod_converse(80 * (t + 31), 2447, m + 1, 80 * (t + 31) - 2447 * (m + 1));
    lemma_fundamental_div_mod_converse(2447 * (m + 1), 80, offset + 30, 2447 * (m + 1) - 80 * (offset + 30));
}

/// The day number of a supported date, in terms of the March-based year
/// written as `400·big + 100·b + 4·c + e`.
proof fn lemma_julian_day_from_parts(year: int, month: int, day: int, big: int, b: int, c: int, e: int)
    requires
        in_supported_range(year, month, day),
        march_year(year, month) == 400 * big + 100 * b + 4 * c + e,
        big >= 0,
        0 <= b < 4,
        0 <= c < 25,
        0 <= e < 4,
    ensures
        julian_day_number(year, month, day) == trunc_div(153 * (month + 12 * (if month <= 2 {
            1int
        } else {
            0int
        }) - 3) + 2, 5) + day - 1 + 146097 * big + 36524 * b + 1461 * c + 365 * e - 32044,
{
    let a: int = if month <= 2 {
        1
    } else {
        0
    };
    lemma_fundamental_div_mod_converse(14 - month, 12, a, 14 - month - 12 * a);
    let y = year + 4800 - a;
    lemma_fundamental_div_mod_converse(y, 4, 100 * big + 25 * b + c, e);
    lemma_fundamental_div_mod_converse(y, 100, 4 * big + b, 4 * c + e);
    lemma_fundamental_div_mod_converse(y, 400, big, 100 * b + 4 * c + e);
}

/// Reading a date back from its day number gives the date again: the two
/// conversions are inverse on every date from 1 March of the year −4800 on.
pub proof fn lemma_julian_day_round_trip(year: int, month: int, day: int)
    requires
        in_supported_range(year, month, day),
    ensures
        civil_from_julian_day(julian_day_number(year, month, day)) == (year, month, day),
{
    let a: int = if month <= 2 {
        1
    } else {
        0
    };
    lemma_fundamental_div_mod_converse(14 - month, 12, a, 14 - month - 12 * a);
    let y = year + 4800 - a;
    let m = month + 12 * a - 3;
    assert(y == march_year(year, month));

    // y = 400·big + 100·b + 4·c + e
    lemma_fundamental_div_mod(y, 400);
    lemma_mod_bound(y, 400);
    let big = y / 400;
    let r400 = y % 400;
    lemma_fundamental_div_mod(r400, 100);
    lemma_mod_bound(r400, 100);
    let b = r400 / 100;
    let r100 = r400 % 100;
    lemma_fundamental_div_mod(r100, 4);
    lemma_mod_bound(r100, 4);
    let c = r100 / 4;
    let e = r100 % 4;
    assert(y == 400 * big + 100 * b + 4 * c + e);
    assert(0 <= b < 4 && 0 <= c < 25 && 0 <= e < 4 && big >= 0);

    lemma_month_offset(m, day);
    let offset = trunc_div(153 * m + 2, 5);
    let t = offset + day - 1;

    // A 366th day in the March-based year is the 29 February that closes it,
    // so the calendar year is a leap year.
    if t == 365 {
        assert(month == 2 && a == 1);
        assert(is_leap_year(year));
        assert(year == 400 * (big - 12) + 100 * b + 4 * c + e + 1);
        if e != 3 {
            lemma_fundamental_div_mod_converse(year, 4, 100 * (big - 12) + 25 * b + c, e + 1);
        }
        assert(e == 3);
        if c == 24 && b != 3 {
            lemma_fundamental_div_mod_converse(year, 100, 4 * (big - 12) + b + 1, 0);
            lemma_fundamental_div_mod_converse(year, 400, big - 12, 100 * (b + 1));
        }
    }
    assert(t == 365 ==> e == 3 && (c == 24 ==> b == 3));

    let jdn = julian_day_number(year, month, day);
    lemma_julian_day_from_parts(year, month, day, big, b, c, e);
    let l0 = jdn + 68569;

    // The century count.
    let n = 4 * big + b + 1;
    assert(0 <= 5844 * c + 1460 * e + 4 * t + 3 - b < 146097);
    lemma_fundamental_div_mod_converse(4 * l0, 146097, n, 5844 * c + 1460 * e + 4 * t + 3 - b);
    lemma_fundamental_div_mod_converse(146097 * n + 3, 4, 146097 * big + 36524 * b + 36525, b);
    let l1 = t + 1461 * c + 365 * e;
    assert(l1 == l0 - trunc_div(146097 * n + 3, 4));

    // The year within the century.
    let i = 4 * c + e;
    assert(0 <= 4000 * (l1 + 1) - 1461001 * i < 1461001);
    lemma_fundamental_div_mod_converse(4000 * (l1 + 1), 1461001, i, 4000 * (l1 + 1) - 1461001 * i);
    lemma_fundamental_div_mod_converse(1461 * i, 4, 1461 * c + 365 * e, e);
    let l2 = t + 31;
    assert(l2 == l1 - trunc_div(1461 * i, 4) + 31);

    // The month and the day within it.
    lemma_fundamental_div_mod_converse(m + 1, 11, a, m + 1 - 11 * a);
}

/// The month counted from March (0 to 11) that contains the `t`-th day of a
/// March-based year, with the facts about it that the inverse algorithm uses.
proof fn lemma_month_of_day_offset(t: int) -> (m: int)
    requires
        0 <= t <= 365,
    ensures
        0 <= m <= 11,
        ({
            let offset = trunc_div(153 * m + 2, 5);
            let day = t - offset + 1;
            &&& 1 <= day <= 31
            &&& m == 11 ==> day <= 29
            &&& (m == 1 || m == 3 || m == 6 || m == 8) ==> day <= 30
            &&& day == 29 && m == 11 ==> t == 365
            &&& trunc_div(80 * (t + 31), 2447) == m + 1
            &&& trunc_div(2447 * (m + 1), 80) == offset + 30
        }),
{
    let m: int = if t < 31 {
        0
    } else if t < 61 {
        1
    } else if t < 92 {
        2
    } else if t < 122 {
        3
    } else if t < 153 {
        4
    } else if t < 184 {
        5
    } else if t < 214 {
        6
    } else if t < 245 {
        7
    } else if t < 275 {
        8
    } else if t < 306 {
        9
    } else if t < 337 {
        10
    } else {
        11
    };
    lemma_fundamental_div_mod(153 * m + 2, 5);
    lemma_mod_bound(153 * m + 2, 5);
    let offset = (153 * m + 2) / 5;
    lemma_month_offset(m, t - offset + 1);
    m
}

/// Every day number from [`FIRST_JULIAN_DAY`] on reads back as a supported
/// date, and that date's day number is the one it was read from.
pub proof fn lemma_julian_day_inverse(jdn: int)
    requires
        FIRST_JULIAN_DAY <= jdn,
    ensures
        ({
            let (year, month, day) = civil_from_julian_day(jdn);
            in_supported_range(year, month, day) && julian_day_number(year, month, day) == jdn
        }),
{
    // Whole 400-year cycles since 1 March −4800, and the day within the cycle.
    let t0 = jdn + 32044;
    lemma_fundamental_div_mod(t0, 146097);
    lemma_mod_bound(t0, 146097);
    let big = t0 / 146097;
    let s = t0 % 146097;

    // The century within the cycle.
    let w = 4 * s + 146100;
    lemma_fundamental_div_mod(w, 146097);
    lemma_mod_bound(w, 146097);
    let b1 = w / 146097;
    let r = w % 146097;
    assert(1 <= b1 <= 4);
    let b = b1 - 1;
    let l0 = jdn + 68569;
    let n = 4 * big + b1;
    lemma_fundamental_div_mod_converse(4 * l0, 146097, n, r);
    lemma_fundamental_div_mod_converse(146097 * n + 3, 4, 146097 * big + 36524 * b + 36525, b);
    let u = s - 36524 * b;
    assert(l0 - trunc_div(146097 * n + 3, 4) == u);
    assert(0 <= u <= 36524);
    assert(u == 36524 ==> b == 3);

    // The year within the century.
    let x = 4000 * (u + 1);
    lemma_fundamental_div_mod(x, 1461001);
    lemma_mod_bound(x, 1461001);
    let i = x / 1461001;
    let ri = x % 1461001;
    assert(0 <= i <= 99);
    lemma_fundamental_div_mod(i, 4);
    lemma_mod_bound(i, 4);
    let c = i / 4;
    let e = i % 4;
    lemma_fundamental_div_mod_converse(1461 * i, 4, 1461 * c + 365 * e, e);
    let t = u - 1461 * c - 365 * e;
    assert(4000 * t == 4 * c + 1001 * e + ri - 4000);
    assert(0 <= t <= 365);
    assert(t == 365 ==> e == 3);

    // The month and the day within it.
    let m = lemma_month_of_day_offset(t);
    let offset = trunc_div(153 * m + 2, 5);
    let a: int = if m >= 10 {
        1
    } else {
        0
    };
    lemma_fundamental_div_mod_converse(m + 1, 11, a, m + 1 - 11 * a);
    let year = 100 * (n - 49) + i + a;
    let month = m + 3 - 12 * a;
    let day = t - offset + 1;
    assert(civil_from_julian_day(jdn) == (year, month, day));

    // A 29 February only ever closes a leap year.
    if month == 2 && day == 29 {
        assert(e == 3);
        assert(year == 400 * (big - 12) + 100 * b + 4 * (c + 1));
        lemma_fundamental_div_mod_converse(year, 4, 100 * (big - 12) + 25 * b + c + 1, 0);
        if c < 24 {
            lemma_fundamental_div_mod_converse(year, 100, 4 * (big - 12) + b, 4 * (c + 1));
        } else {
            assert(b == 3);
            lemma_fundamental_div_mod_converse(year, 400, big - 11, 0);
        }
        assert(is_leap_year(year));
    }
    assert(is_valid_date(year, month, day));
    assert(march_year(year, month) == 400 * big + 100 * b + 4 * c + e);
    lemma_julian_day_from_parts(year, month, day, big, b, c, e);
}

/// The calendar day after `(year, month, day)`.
pub open spec fn next_date(year: int, month: int, day: int) -> (int, int, int) {
    if day < days_in_month(year, month) {
        (year, month, day + 1)
    } else if month < 12 {
        (year, month + 1, 1)
    } else {
        (year + 1, 1, 1)
    }
}

/// The March-based year `y` written as `400·big + 100·b + 4·c + e`.
proof fn lemma_split_march_year(y: int) -> (parts: (int, int, int, int))
    requires
        y >= 0,
    ensures
        y == 400 * parts.0 + 100 * parts.1 + 4 * parts.2 + parts.3,
        parts.0 >= 0,
        0 <= parts.1 < 4,
        0 <= parts.2 < 25,
        0 <= parts.3 < 4,
{
    lemma_fundamental_div_mod(y, 400);
    lemma_mod_bound(y, 400);
    lemma_fundamental_div_mod(y % 400, 100);
    lemma_mod_bound(y % 400, 100);
    lemma_fundamental_div_mod(y % 400 % 100, 4);
    lemma_mod_bound(y % 400 % 100, 4);
    (y / 400, y % 400 / 100, y % 400 % 100 / 4, y % 400 % 100 % 4)
}

/// The day numbers are anchored at J2000.0: 2000-01-01 is day
/// [`J2000_JULIAN_DAY_NUMBER`], and the Julian period starts (day 0) on
/// 24 November −4713 of the proleptic Gregorian calendar. With the next-day
/// law below this fixes the day number of every supported date.
pub proof fn lemma_julian_day_anchors()
    ensures
        julian_day_number(2000, 1, 1) == J2000_JULIAN_DAY_NUMBER,
        julian_day_number(-4713, 11, 24) == 0,
        julian_day_number(-4800, 3, 1) == FIRST_JULIAN_DAY,
{
}

/// The day number counts days: the day after a supported date is supported
/// too, and its day number is one more.
pub proof fn lemma_next_day_is_next_julian_day(year: int, month: int, day: int)
    requires
        in_supported_range(year, month, day),
    ensures
        ({
            let (next_year, next_month, next_day) = next_date(year, month, day);
            &&& in_supported_range(next_year, next_month, next_day)
            &&& julian_day_number(next_year, next_month, next_day) == julian_day_number(year, month, day) + 1
        }),
{
    let (next_year, next_month, next_day) = next_date(year, month, day);
    let y = march_year(year, month);
    let (big, b, c, e) = lemma_split_march_year(y);
    lemma_julian_day_from_parts(year, month, day, big, b, c, e);
    let a: int = if month <= 2 {
        1
    } else {
        0
    };
    let m = month + 12 * a - 3;
    lemma_fundamental_div_mod(153 * m + 2, 5);
    lemma_mod_bound(153 * m + 2, 5);
    if month == 2 && day == days_in_month(year, month) {
        // The last day of February ends a March-based year.
        let y1 = y + 1;
        let (big1, b1, c1, e1) = lemma_split_march_year(y1);
        assert(year == y1 - 4800);
        if e < 3 {
            assert(big1 == big && b1 == b && c1 == c && e1 == e + 1);
            lemma_fundamental_div_mod_converse(year, 4, 100 * (big - 12) + 25 * b + c, e + 1);
            assert(!is_leap_year(year));
        } else if c < 24 {
            assert(big1 == big && b1 == b && c1 == c + 1 && e1 == 0);
            lemma_fundamental_div_mod_converse(year, 4, 100 * (big - 12) + 25 * b + c + 1, 0);
            lemma_fundamental_div_mod_converse(year, 100, 4 * (big - 12) + b, 4 * (c + 1));
            assert(is_leap_year(year));
        } else if b < 3 {
            assert(big1 == big && b1 == b + 1 && c1 == 0 && e1 == 0);
            lemma_fundamental_div_mod_converse(year, 100, 4 * (big - 12) + b + 1, 0);
            lemma_fundamental_div_mod_converse(year, 400, big - 12, 100 * (b + 1));
            assert(!is_leap_year(year));
        } else {
            assert(big1 == big + 1 && b1 == 0 && c1 == 0 && e1 == 0);
            lemma_fundamental_div_mod_converse(year, 400, big - 11, 0);
            assert(is_leap_year(year));
        }
        lemma_julian_day_from_parts(next_year, next_month, next_day, big1, b1, c1, e1);
        lemma_fundamental_div_mod_converse(2, 5, 0, 2);
    } else {
        // Any other day stays in the same March-based year.
        assert(march_year(next_year, next_month) == y);
        lemma_julian_day_from_parts(next_year, next_month, next_day, big, b, c, e);
        let next_a: int = if next_month <= 2 {
            1
        } else {
            0
        };
        let next_m = next_month + 12 * next_a - 3;
        lemma_fundamental_div_mod(153 * next_m + 2, 5);
        lemma_mod_bound(153 * next_m + 2, 5);
    }
}

/// The character of a decimal digit.
pub open spec fn digit_char(d: int) -> char {
    if d == 0 {
        '0'
    } else if d == 1 {
        '1'
    } else if d == 2 {
        '2'
    } else if d == 3 {
        '3'
    } else if d == 4 {
        '4'
    } else if d == 5 {
        '5'
    } else if d == 6 {
        '6'
    } else if d == 7 {
        '7'
    } else if d == 8 {
        '8'
    } else {
        '9'
    }
}

/// The decimal digits of a natural number, most significant first, with no
/// leading zeros (zero itself is the single digit `0`).
pub open spec fn decimal_digits(n: nat) -> Seq<char>
    decreases n,
{
    if n < 10 {
        seq![digit_char(n as int)]
    } else {
        decimal_digits(n / 10).push(digit_char((n % 10) as int))
    }
}

/// `count` zeros, or none for a negative count.
pub open spec fn zeros(count: int) -> Seq<char> {
    Seq::new(if count > 0 {
        count as nat
    } else {
        0
    }, |_i: int| '0')
}

/// An integer written in decimal and zero-padded to at least `width`
/// characters, a minus sign counting towards the width: the `{:0width}` format.
pub open spec fn zero_padded(value: int, width: int) -> Seq<char> {
    let digits = decimal_digits(
        if value < 0 {
            (-value) as nat
        } else {
            value as nat
        },
    );
    if value < 0 {
        seq!['-'] + zeros(width - 1 - digits.len()) + digits
    } else {
        zeros(width - digits.len()) + digits
    }
}

/// A calendar date and clock time as `YYYY-MM-DDThh:mm:ss`.
pub open spec fn iso8601_text(year: int, month: int, day: int, hour: int, minute: int, second: int) -> Seq<char> {
    zero_padded(year, 4) + seq!['-'] + zero_padded(month, 2) + seq!['-'] + zero_padded(day, 2) + seq!['T']
        + zero_padded(hour, 2) + seq![':'] + zero_padded(minute, 2) + seq![':'] + zero_padded(second, 2)
}

/// Whether every character of `text` is a decimal digit.
pub open spec fn all_decimal(text: Seq<char>) -> bool {
    forall|i: int| 0 <= i < text.len() ==> '0' <= #[trigger] text[i] <= '9'
}

/// The number a string of decimal digits reads as, most significant first.
pub open spec fn decimal_value(text: Seq<char>) -> int
    decreases text.len(),
{
    if text.len() == 0 {
        0
    } else {
        10 * decimal_value(text.drop_last()) + (text.last() as int - '0' as int)
    }
}

/// The digits of `n` are decimal digits that read back as `n`, with no
/// leading zero unless `n` is zero itself.
pub proof fn lemma_decimal_digits_read_back(n: nat)
    ensures
        all_decimal(decimal_digits(n)),
        decimal_value(decimal_digits(n)) == n,
        decimal_digits(n).len() >= 1,
        n > 0 ==> decimal_digits(n)[0] != '0',
    decreases n,
{
    if n >= 10 {
        lemma_decimal_digits_read_back(n / 10);
        lemma_digit_char_value((n % 10) as int);
        let head = decimal_digits(n / 10);
        assert(decimal_digits(n).drop_last() =~= head);
        assert(decimal_digits(n)[0] == head[0]);
        assert(decimal_value(decimal_digits(n)) == 10 * (n / 10) + n % 10);
        assert(10 * (n / 10) + n % 10 == n);
    } else {
        lemma_digit_char_value(n as int);
        assert(decimal_digits(n).drop_last() =~= Seq::<char>::empty());
        assert(decimal_value(Seq::<char>::empty()) == 0);
        assert(decimal_value(decimal_digits(n)) == n);
    }
}

/// A digit's character reads back as the digit.
proof fn lemma_digit_char_value(d: int)
    requires
        0 <= d < 10,
    ensures
        digit_char(d) as int - '0' as int == d,
        '0' <= digit_char(d) <= '9',
{
}

/// Leading zeros do not change the number a digit string reads as.
proof fn lemma_leading_zeros_read_as_nothing(k: int, digits: Seq<char>)
    ensures
        decimal_value(zeros(k) + digits) == decimal_value(digits),
    decreases digits.len(), if k > 0 {
        k
    } else {
        0
    },
{
    if digits.len() > 0 {
        assert((zeros(k) + digits).drop_last() =~= zeros(k) + digits.drop_last());
        lemma_leading_zeros_read_as_nothing(k, digits.drop_last());
    } else if k > 0 {
        assert(zeros(k) + digits =~= zeros(k));
        assert(zeros(k).drop_last() =~= zeros(k - 1));
        assert(zeros(k - 1) =~= zeros(k - 1) + digits);
        lemma_leading_zeros_read_as_nothing(k - 1, digits);
    } else {
        assert(zeros(k) + digits =~= Seq::<char>::empty());
    }
}

/// `{:0width}` only ever adds zeros in front of the digits: a non-negative
/// value is its digits preceded by as many zeros as bring it to `width`
/// characters (none if it is already that long); a negative one is a minus
/// sign, then zeros, then the digits of its magnitude, `width` counting the
/// sign. So the text is never shorter than `width`, never longer than it
/// needs to be, and reads back as the value.
pub proof fn lemma_zero_padding_only_adds_leading_zeros(value: int, width: int)
    requires
        width >= 0,
    ensures
        ({
            let magnitude = if value < 0 {
                -value
            } else {
                value
            };
            let digits = decimal_digits(magnitude as nat);
            let text = zero_padded(value, width);
            let sign: int = if value < 0 {
                1
            } else {
                0
            };
            let length = if width > sign + digits.len() {
                width
            } else {
                sign + digits.len()
            };
            &&& text.len() == length
            &&& value < 0 ==> text[0] == '-'
            &&& forall|i: int| sign <= i < length - digits.len() ==> text[i] == '0'
            &&& text.subrange(length - digits.len(), length) == digits
            &&& decimal_value(digits) == magnitude
            &&& all_decimal(text.subrange(sign, length))
            &&& decimal_value(text.subrange(sign, length)) == magnitude
        }),
{
    let magnitude = if value < 0 {
        -value
    } else {
        value
    };
    lemma_decimal_digits_read_back(magnitude as nat);
    let digits = decimal_digits(magnitude as nat);
    let text = zero_padded(value, width);
    let sign: int = if value < 0 {
        1
    } else {
        0
    };
    let length = if width > sign + digits.len() {
        width
    } else {
        sign + digits.len()
    };
    assert(text.len() == length);
    assert(text.subrange(length - digits.len(), length) =~= digits);
    assert forall|i: int| sign <= i < length implies '0' <= #[trigger] text.subrange(sign, length)[i - sign] <= '9' by {
        if i >= length - digits.len() {
            assert(text[i] == digits[i - (length - digits.len())]);
        }
    }
    assert(all_decimal(text.subrange(sign, length)));
    let padding = length - sign - digits.len();
    assert(text.subrange(sign, length) =~= zeros(padding) + digits);
    lemma_leading_zeros_read_as_nothing(padding, digits);
}

/// The text of a date and time with a year of at most four digits and
/// two-digit fields is nineteen characters, `YYYY-MM-DDThh:mm:ss`: the
/// separators stand at fixed places and each field reads back as its value.
pub proof fn lemma_iso8601_layout(year: int, month: int, day: int, hour: int, minute: int, second: int)
    requires
        0 <= year <= 9999,
        0 <= month <= 99,
        0 <= day <= 99,
        0 <= hour <= 99,
        0 <= minute <= 99,
        0 <= second <= 99,
    ensures
        ({
            let text = iso8601_text(year, month, day, hour, minute, second);
            &&& text.len() == 19
            &&& text[4] == '-' && text[7] == '-' && text[10] == 'T' && text[13] == ':' && text[16] == ':'
            &&& decimal_value(text.subrange(0, 4)) == year
            &&& decimal_value(text.subrange(5, 7)) == month
            &&& decimal_value(text.subrange(8, 10)) == day
            &&& decimal_value(text.subrange(11, 13)) == hour
            &&& decimal_value(text.subrange(14, 16)) == minute
            &&& decimal_value(text.subrange(17, 19)) == second
        }),
{
    reveal_with_fuel(pow10, 5);
    lemma_digit_count_bound(year as nat, 4);
    lemma_digit_count_bound(month as nat, 2);
    lemma_digit_count_bound(day as nat, 2);
    lemma_digit_count_bound(hour as nat, 2);
    lemma_digit_count_bound(minute as nat, 2);
    lemma_digit_count_bound(second as nat, 2);
    lemma_zero_padding_only_adds_leading_zeros(year, 4);
    lemma_zero_padding_only_adds_leading_zeros(month, 2);
    lemma_zero_padding_only_adds_leading_zeros(day, 2);
    lemma_zero_padding_only_adds_leading_zeros(hour, 2);
    lemma_zero_padding_only_adds_leading_zeros(minute, 2);
    lemma_zero_padding_only_adds_leading_zeros(second, 2);
    let y = zero_padded(year, 4);
    let mo = zero_padded(month, 2);
    let d = zero_padded(day, 2);
    let h = zero_padded(hour, 2);
    let mi = zero_padded(minute, 2);
    let se = zero_padded(second, 2);
    let text = iso8601_text(year, month, day, hour, minute, second);
    assert(y.len() == 4 && mo.len() == 2 && d.len() == 2 && h.len() == 2 && mi.len() == 2 && se.len() == 2);
    assert(y.subrange(0, 4) =~= y);
    assert(text.subrange(0, 4) =~= y);
    assert(text.subrange(5, 7) =~= mo.subrange(0, 2));
    assert(text.subrange(8, 10) =~= d.subrange(0, 2));
    assert(text.subrange(11, 13) =~= h.subrange(0, 2));
    assert(text.subrange(14, 16) =~= mi.subrange(0, 2));
    assert(text.subrange(17, 19) =~= se.subrange(0, 2));
}

/// The one-character text of a decimal digit.
fn digit_text(d: u64) -> (text: &'static str)
    requires
        d < 10,
    ensures
        text@ == seq![digit_char(d as int)],
{
    proof {
        reveal_strlit("0");
        reveal_strlit("1");
        reveal_strlit("2");
        reveal_strlit("3");
        reveal_strlit("4");
        reveal_strlit("5");
        reveal_strlit("6");
        reveal_strlit("7");
        reveal_strlit("8");
        reveal_strlit("9");
    }
    match d {
        0 => "0",
        1 => "1",
        2 => "2",
        3 => "3",
        4 => "4",
        5 => "5",
        6 => "6",
        7 => "7",
        8 => "8",
        _ => "9",
    }
}

/// Appends the decimal digits of `n`.
fn push_digits(out: &mut String, n: u64)
    ensures
        final(out)@ == old(out)@ + decimal_digits(n as nat),
    decreases n,
{
    if n >= 10 {
        push_digits(out, n / 10);
    }
    out.append(digit_text(n % 10));
}

/// Ten to the power `k`.
pub open spec fn pow10(k: nat) -> nat
    decreases k,
{
    if k == 0 {
        1
    } else {
        10 * pow10((k - 1) as nat)
    }
}

/// A number below `10^k` has at most `k` digits.
proof fn lemma_digit_count_bound(n: nat, k: nat)
    requires
        1 <= k,
        n < pow10(k),
    ensures
        decimal_digits(n).len() <= k,
    decreases k,
{
    if n >= 10 {
        assert(k >= 2) by {
            if k == 1 {
                assert(pow10(1) == 10) by {
                    reveal_with_fuel(pow10, 2);
                }
            }
        }
        assert(n / 10 < pow10((k - 1) as nat));
        lemma_digit_count_bound(n / 10, (k - 1) as nat);
    }
}

/// Number of decimal digits of `n`.
fn digit_count(n: u64) -> (count: usize)
    ensures
        count == decimal_digits(n as nat).len(),
        1 <= count <= 20,
    decreases n,
{
    proof {
        reveal_with_fuel(pow10, 21);
        assert(pow10(20) == 100000000000000000000nat);
        lemma_digit_count_bound(n as nat, 20);
    }
    if n >= 10 {
        digit_count(n / 10) + 1
    } else {
        1
    }
}

/// Appends `count` zeros.
fn push_zeros(out: &mut String, count: usize)
    ensures
        final(out)@ == old(out)@ + zeros(count as int),
{
    let ghost start = out@;
    proof {
        reveal_strlit("0");
    }
    let mut written: usize = 0;
    while written < count
        invariant
            written <= count,
            out@ == start + zeros(written as int),
        decreases count - written,
    {
        proof {
            reveal_strlit("0");
        }
        out.append("0");
        written += 1;
        assert(out@ =~= start + zeros(written as int));
    }
}

/// Appends `value` zero-padded to `width` characters, as `{:0width}` does.
fn push_zero_padded(out: &mut String, value: i64, width: usize)
    requires
        value > i64::MIN,
        width <= 8,
    ensures
        final(out)@ == old(out)@ + zero_padded(value as int, width as int),
{
    let magnitude: u64 = if value < 0 {
        (-value) as u64
    } else {
        value as u64
    };
    let digits = digit_count(magnitude);
    let ghost start = out@;
    if value < 0 {
        proof {
            reveal_strlit("-");
        }
        out.append("-");
        let padding: usize = if width > digits + 1 {
            width - digits - 1
        } else {
            0
        };
        push_zeros(out, padding);
        push_digits(out, magnitude);
        assert(zeros(padding as int) =~= zeros(width - 1 - digits));
        assert(out@ =~= start + zero_padded(value as int, width as int));
    } else {
        let padding: usize = if width > digits {
            width - digits
        } else {
            0
        };
        push_zeros(out, padding);
        push_digits(out, magnitude);
        assert(zeros(padding as int) =~= zeros(width - digits));
        assert(out@ =~= start + zero_padded(value as int, width as int));
    }
}

/// Formats a calendar date and clock time as an ISO-8601-like text,
/// `YYYY-MM-DDThh:mm:ss`, each field zero-padded (the year to four
/// characters, the others to two).
pub fn format_iso8601(year: i32, month: u32, day: u32, hour: u32, minute: u32, second: u32) -> (text: String)
    ensures
        text@ == iso8601_text(year as int, month as int, day as int, hour as int, minute as int, second as int),
{
    proof {
        reveal_strlit("-");
        reveal_strlit("T");
        reveal_strlit(":");
    }
    let mut text = String::new();
    push_zero_padded(&mut text, year as i64, 4);
    text.append("-");
    push_zero_padded(&mut text, month as i64, 2);
    text.append("-");
    push_zero_padded(&mut text, day as i64, 2);
    text.append("T");
    push_zero_padded(&mut text, hour as i64, 2);
    text.append(":");
    push_zero_padded(&mut text, minute as i64, 2);
    text.append(":");
    push_zero_padded(&mut text, second as i64, 2);
    assert(text@ =~= iso8601_text(year as int, month as int, day as int, hour as int, minute as int, second as int));
    text
}

} // verus!
