//! The proleptic Gregorian calendar: a verified bijection between
//! (year, month, day) triples and day numbers, where day number 0 is
//! the first of January of year 0.

use vstd::prelude::*;
use vstd::arithmetic::div_mod::{
    lemma_fundamental_div_mod, lemma_div_multiples_vanish_fancy,
};

verus! {

/// Years outside this range have no representable day number or start
/// instant; the bound keeps every derived quantity well inside `i64`.
pub const YEAR_MIN: i64 = -260000;
pub const YEAR_MAX: i64 = 260000;

/// Day number of 1 January of `YEAR_MIN`.
pub const DAY_MIN: i64 = -94963050;
/// Day number of 31 December of `YEAR_MAX`.
pub const DAY_MAX: i64 = 94963415;

pub open spec fn is_leap_year(y: int) -> bool {
    (y % 4 == 0 && y % 100 != 0) || y % 400 == 0
}

pub open spec fn days_in_year(y: int) -> int {
    if is_leap_year(y) {
        366
    } else {
        365
    }
}

/// Number of leap years `z` with `0 <= z < y`, counted negatively when
/// `y < 0` (so that it is the right correction term for every year).
pub open spec fn leap_count(y: int) -> int {
    (y + 3) / 4 - (y + 99) / 100 + (y + 399) / 400
}

/// Day number of 1 January of year `y`.
pub open spec fn days_before_year(y: int) -> int {
    365 * y + leap_count(y)
}

/// Days of year `y` that lie before month `m`; defined for `1 <= m <= 13`
/// so that month 13 stands for the end of the year.
pub open spec fn days_before_month(y: int, m: int) -> int {
    let flat: int = if m == 1 {
        0
    } else if m == 2 {
        31
    } else if m == 3 {
        59
    } else if m == 4 {
        90
    } else if m == 5 {
        120
    } else if m == 6 {
        151
    } else if m == 7 {
        181
    } else if m == 8 {
        212
    } else if m == 9 {
        243
    } else if m == 10 {
        273
    } else if m == 11 {
        304
    } else if m == 12 {
        334
    } else {
        365
    };
    flat + if m > 2 && is_leap_year(y) {
        1int
    } else {
        0int
    }
}

pub open spec fn days_in_month(y: int, m: int) -> int {
    if m == 2 {
        if is_leap_year(y) {
            29
        } else {
            28
        }
    } else if m == 4 || m == 6 || m == 9 || m == 11 {
        30
    } else {
        31
    }
}

pub open spec fn valid_ymd(y: int, m: int, d: int) -> bool {
    YEAR_MIN <= y <= YEAR_MAX && 1 <= m <= 12 && 1 <= d <= days_in_month(y, m)
}

/// Day number of the calendar date `y`-`m`-`d`.
pub open spec fn day_num_of_ymd(y: int, m: int, d: int) -> int {
    days_before_year(y) + days_before_month(y, m) + (d - 1)
}

/// Weekday of a day number, 0 = Monday .. 6 = Sunday.
pub open spec fn weekday_of_day_num(n: int) -> int {
    (n + 5) % 7
}

/// One step of the quotient `(y + c) / d`: it grows exactly at the
/// multiples of `d`.
proof fn lemma_div_step_one(a: int, d: int)
    requires
        0 < d,
    ensures
        (a + 1) / d == a / d + if (a + 1) % d == 0 {
            1int
        } else {
            0int
        },
{
    lemma_fundamental_div_mod(a, d);
    let q = a / d;
    let r = a % d;
    if r == d - 1 {
        assert(d * (q + 1) == d * q + d) by (nonlinear_arith);
        assert(a + 1 == d * (q + 1) + 0);
        lemma_div_multiples_vanish_fancy(q + 1, 0, d);
        lemma_fundamental_div_mod(a + 1, d);
    } else {
        assert(a + 1 == d * q + (r + 1));
        lemma_div_multiples_vanish_fancy(q, r + 1, d);
        lemma_fundamental_div_mod(a + 1, d);
    }
}

pub proof fn lemma_leap_count_step(y: int)
    ensures
        leap_count(y + 1) == leap_count(y) + if is_leap_year(y) {
            1int
        } else {
            0int
        },
{
    lemma_div_step_one(y + 3, 4);
    lemma_div_step_one(y + 99, 100);
    lemma_div_step_one(y + 399, 400);
    lemma_fundamental_div_mod(y, 4);
    lemma_fundamental_div_mod(y + 4, 4);
    lemma_fundamental_div_mod(y, 100);
    lemma_fundamental_div_mod(y + 100, 100);
    lemma_fundamental_div_mod(y, 400);
    lemma_fundamental_div_mod(y + 400, 400);
    assert((y + 4) % 4 == y % 4) by {
        lemma_mod_shift(y, 4);
    }
    assert((y + 100) % 100 == y % 100) by {
        lemma_mod_shift(y, 100);
    }
    assert((y + 400) % 400 == y % 400) by {
        lemma_mod_shift(y, 400);
    }
}

/// Adding the modulus does not change the remainder.
proof fn lemma_mod_shift(a: int, d: int)
    requires
        0 < d,
    ensures
        (a + d) % d == a % d,
{
    lemma_fundamental_div_mod(a, d);
    assert(d * (a / d + 1) == d * (a / d) + d) by (nonlinear_arith);
    assert(a + d == d * (a / d + 1) + a % d);
    lemma_div_multiples_vanish_fancy(a / d + 1, a % d, d);
    lemma_fundamental_div_mod(a + d, d);
}

pub proof fn lemma_days_before_year_step(y: int)
    ensures
        days_before_year(y + 1) == days_before_year(y) + days_in_year(y),
{
    lemma_leap_count_step(y);
}

/// Linear bounds on `days_before_year`, proved by induction.
pub proof fn lemma_days_before_year_linear(y: int)
    ensures
        y >= 0 ==> 365 * y <= days_before_year(y) <= 366 * y,
        y <= 0 ==> 366 * y <= days_before_year(y) <= 365 * y,
    decreases
            (if y >= 0 {
                y
            } else {
                -y
            }),
{
    if y == 0 {
        assert(leap_count(0) == 0);
    } else if y > 0 {
        lemma_days_before_year_linear(y - 1);
        lemma_days_before_year_step(y - 1);
    } else {
        lemma_days_before_year_linear(y + 1);
        lemma_days_before_year_step(y);
    }
}

pub proof fn lemma_days_before_year_monotone(y1: int, y2: int)
    requires
        y1 <= y2,
    ensures
        days_before_year(y1) + 365 * (y2 - y1) <= days_before_year(y2),
    decreases y2 - y1,
{
    if y1 < y2 {
        lemma_days_before_year_monotone(y1, y2 - 1);
        lemma_days_before_year_step(y2 - 1);
    }
}

/// The months of a year stack exactly: the days before month `m` plus the
/// length of month `m` give the days before month `m + 1`.
pub proof fn lemma_days_before_month_step(y: int, m: int)
    requires
        1 <= m <= 12,
    ensures
        days_before_month(y, m) + days_in_month(y, m) == days_before_month(y, m + 1),
{
}

pub proof fn lemma_days_before_month_monotone(y: int, m1: int, m2: int)
    requires
        1 <= m1 <= m2 <= 13,
    ensures
        days_before_month(y, m1) <= days_before_month(y, m2),
        m1 < m2 ==> days_before_month(y, m1) + days_in_month(y, m1) <= days_before_month(y, m2),
    decreases m2 - m1,
{
    if m1 < m2 {
        lemma_days_before_month_step(y, m1);
        lemma_days_before_month_monotone(y, m1 + 1, m2);
    }
}

/// A valid date's day number lies within its year.
pub proof fn lemma_day_num_in_year(y: int, m: int, d: int)
    requires
        1 <= m <= 12,
        1 <= d <= days_in_month(y, m),
    ensures
        days_before_year(y) <= day_num_of_ymd(y, m, d),
        day_num_of_ymd(y, m, d) < days_before_year(y) + days_in_year(y),
{
    lemma_days_before_month_monotone(y, 1, m);
    lemma_days_before_month_monotone(y, m, 13);
    lemma_days_before_month_step(y, m);
    assert(days_before_month(y, 13) == days_in_year(y));
}

/// The calendar order of two valid dates agrees with the order of their
/// day numbers.
pub proof fn lemma_day_num_order(y1: int, m1: int, d1: int, y2: int, m2: int, d2: int)
    requires
        valid_ymd(y1, m1, d1),
        valid_ymd(y2, m2, d2),
        y1 < y2 || (y1 == y2 && m1 < m2) || (y1 == y2 && m1 == m2 && d1 < d2),
    ensures
        day_num_of_ymd(y1, m1, d1) < day_num_of_ymd(y2, m2, d2),
{
    if y1 < y2 {
        lemma_day_num_in_year(y1, m1, d1);
        lemma_day_num_in_year(y2, m2, d2);
        lemma_days_before_year_step(y1);
        lemma_days_before_year_monotone(y1 + 1, y2);
    } else if m1 < m2 {
        lemma_days_before_month_step(y1, m1);
        lemma_days_before_month_monotone(y1, m1 + 1, m2);
    }
}

/// Two valid dates with the same day number are the same date.
pub proof fn lemma_day_num_injective(y1: int, m1: int, d1: int, y2: int, m2: int, d2: int)
    requires
        valid_ymd(y1, m1, d1),
        valid_ymd(y2, m2, d2),
        day_num_of_ymd(y1, m1, d1) == day_num_of_ymd(y2, m2, d2),
    ensures
        y1 == y2 && m1 == m2 && d1 == d2,
{
    if y1 != y2 || m1 != m2 || d1 != d2 {
        if y1 < y2 || (y1 == y2 && m1 < m2) || (y1 == y2 && m1 == m2 && d1 < d2) {
            lemma_day_num_order(y1, m1, d1, y2, m2, d2);
        } else {
            lemma_day_num_order(y2, m2, d2, y1, m1, d1);
        }
    }
}

/// The day-number range of the supported years, as the named constants.
pub proof fn lemma_day_bounds()
    ensures
        DAY_MIN == days_before_year(YEAR_MIN as int),
        DAY_MAX == days_before_year(YEAR_MAX + 1) - 1,
{
    assert((-259997) / 4 == -65000) by {
        lemma_div_multiples_vanish_fancy(-65000, 3, 4);
    }
    assert((-259901) / 100 == -2600) by {
        lemma_div_multiples_vanish_fancy(-2600, 99, 100);
    }
    assert((-259601) / 400 == -650) by {
        lemma_div_multiples_vanish_fancy(-650, 399, 400);
    }
    assert(260004int / 4 == 65001) by {
        lemma_div_multiples_vanish_fancy(65001, 0, 4);
    }
    assert(260100int / 100 == 2601) by {
        lemma_div_multiples_vanish_fancy(2601, 0, 100);
    }
    assert(260400int / 400 == 651) by {
        lemma_div_multiples_vanish_fancy(651, 0, 400);
    }
}

pub(crate) fn div_euclid_i64(a: i64, d: i64) -> (r: i64)
    requires
        d > 0,
    ensures
        r == a as int / d as int,
{
    proof {
        if a >= 0 {
            vstd::arithmetic::div_mod::lemma_div_pos_is_pos(a as int, d as int);
            vstd::arithmetic::div_mod::lemma_div_nonincreasing(a as int, d as int);
        } else {
            lemma_div_lower_bound(a as int, d as int);
            vstd::arithmetic::div_mod::lemma_div_is_ordered(a as int, 0, d as int);
            assert(0int / d as int == 0) by {
                lemma_div_multiples_vanish_fancy(0, 0, d as int);
            }
        }
    }
    a.checked_div_euclid(d).unwrap()
}

pub(crate) fn rem_euclid_i64(a: i64, d: i64) -> (r: i64)
    requires
        d > 0,
    ensures
        r == a as int % d as int,
{
    proof {
        vstd::arithmetic::div_mod::lemma_mod_bound(a as int, d as int);
    }
    a.checked_rem_euclid(d).unwrap()
}

/// The Euclidean quotient lies between the dividend and zero.
pub proof fn lemma_div_bounds(a: int, d: int)
    requires
        d > 0,
    ensures
        a >= 0 ==> 0 <= a / d <= a,
        a < 0 ==> a <= a / d <= 0,
{
    if a >= 0 {
        vstd::arithmetic::div_mod::lemma_div_pos_is_pos(a, d);
        vstd::arithmetic::div_mod::lemma_div_nonincreasing(a, d);
    } else {
        lemma_div_lower_bound(a, d);
        vstd::arithmetic::div_mod::lemma_div_is_ordered(a, 0, d);
        assert(0int / d == 0) by {
            lemma_div_multiples_vanish_fancy(0, 0, d);
        }
    }
}

/// The triple of calendar fields holding a day number, at the
/// specification level.
pub open spec fn ymd_of_day_num(n: int) -> (int, int, int) {
    choose|t: (int, int, int)|
        valid_ymd(t.0, t.1, t.2) && day_num_of_ymd(t.0, t.1, t.2) == n
}

/// `ymd_of_day_num` undoes `day_num_of_ymd` on every valid date.
pub proof fn lemma_ymd_of_day_num(y: int, m: int, d: int)
    requires
        valid_ymd(y, m, d),
    ensures
        ymd_of_day_num(day_num_of_ymd(y, m, d)) == (y, m, d),
{
    let n = day_num_of_ymd(y, m, d);
    assert(exists|t: (int, int, int)|
        valid_ymd(t.0, t.1, t.2) && day_num_of_ymd(t.0, t.1, t.2) == n) by {
        assert(valid_ymd((y, m, d).0, (y, m, d).1, (y, m, d).2) && day_num_of_ymd(
            (y, m, d).0,
            (y, m, d).1,
            (y, m, d).2,
        ) == n);
    }
    let t = ymd_of_day_num(n);
    lemma_day_num_injective(t.0, t.1, t.2, y, m, d);
}

/// For a negative dividend the Euclidean quotient is at least the
/// dividend itself.
proof fn lemma_div_lower_bound(a: int, d: int)
    requires
        d > 0,
        a < 0,
    ensures
        a <= a / d,
{
    lemma_fundamental_div_mod(a, d);
    vstd::arithmetic::div_mod::lemma_mod_bound(a, d);
    let q = a / d;
    let r = a % d;
    if q < a {
        assert(false) by (nonlinear_arith)
            requires
                d > 0,
                a < 0,
                q <= a - 1,
                0 <= r < d,
                d * q + r == a,
        ;
    }
}

pub fn is_leap_year_exec(y: i64) -> (r: bool)
    requires
        i64::MIN < y < i64::MAX,
    ensures
        r == is_leap_year(y as int),
{
    let m4 = rem_euclid_i64(y, 4);
    let m100 = rem_euclid_i64(y, 100);
    let m400 = rem_euclid_i64(y, 400);
    (m4 == 0 && m100 != 0) || m400 == 0
}

pub fn days_in_month_exec(y: i64, m: u8) -> (r: u8)
    requires
        i64::MIN < y < i64::MAX,
        1 <= m <= 12,
    ensures
        r == days_in_month(y as int, m as int),
{
    if m == 2 {
        if is_leap_year_exec(y) {
            29
        } else {
            28
        }
    } else if m == 4 || m == 6 || m == 9 || m == 11 {
        30
    } else {
        31
    }
}

fn days_before_month_exec(y: i64, m: u8) -> (r: u16)
    requires
        i64::MIN < y < i64::MAX,
        1 <= m <= 13,
    ensures
        r == days_before_month(y as int, m as int),
{
    let flat: u16 = if m == 1 {
        0
    } else if m == 2 {
        31
    } else if m == 3 {
        59
    } else if m == 4 {
        90
    } else if m == 5 {
        120
    } else if m == 6 {
        151
    } else if m == 7 {
        181
    } else if m == 8 {
        212
    } else if m == 9 {
        243
    } else if m == 10 {
        273
    } else if m == 11 {
        304
    } else if m == 12 {
        334
    } else {
        365
    };
    if m > 2 && is_leap_year_exec(y) {
        flat + 1
    } else {
        flat
    }
}

pub fn days_before_year_exec(y: i64) -> (r: i64)
    requires
        -300000 <= y <= 300000,
    ensures
        r == days_before_year(y as int),
{
    let q4 = div_euclid_i64(y + 3, 4);
    let q100 = div_euclid_i64(y + 99, 100);
    let q400 = div_euclid_i64(y + 399, 400);
    proof {
        lemma_days_before_year_linear(y as int);
    }
    365 * y + (q4 - q100 + q400)
}

/// Day number of a valid calendar date.
pub fn day_number_from_ymd(y: i64, m: u8, d: u8) -> (r: i64)
    requires
        valid_ymd(y as int, m as int, d as int),
    ensures
        r == day_num_of_ymd(y as int, m as int, d as int),
        DAY_MIN <= r <= DAY_MAX,
{
    let by = days_before_year_exec(y);
    let bm = days_before_month_exec(y, m);
    proof {
        lemma_day_num_in_year(y as int, m as int, d as int);
        lemma_days_before_year_monotone(YEAR_MIN as int, y as int);
        lemma_days_before_year_monotone(y as int + 1, YEAR_MAX as int + 1);
        lemma_days_before_year_step(y as int);
        lemma_day_bounds();
        lemma_days_before_year_linear(y as int);
    }
    by + bm as i64 + (d as i64 - 1)
}

/// The year that holds a day number.
fn year_of_day_number(n: i64) -> (y: i64)
    requires
        DAY_MIN <= n <= DAY_MAX,
    ensures
        YEAR_MIN <= y <= YEAR_MAX,
        days_before_year(y as int) <= n < days_before_year(y as int + 1),
{
    proof {
        lemma_day_bounds();
    }
    // Estimate a year at or below the right one, then walk forward.
    let mut y: i64 = if n >= 0 {
        div_euclid_i64(n, 366)
    } else {
        div_euclid_i64(n, 365)
    };
    proof {
        lemma_days_before_year_linear(y as int);
        if n >= 0 {
            lemma_fundamental_div_mod(n as int, 366);
            vstd::arithmetic::div_mod::lemma_mod_bound(n as int, 366);
            vstd::arithmetic::div_mod::lemma_div_pos_is_pos(n as int, 366);
            vstd::arithmetic::div_mod::lemma_div_is_ordered(n as int, DAY_MAX as int, 366);
            assert(DAY_MAX as int / 366 == 259462) by {
                lemma_div_multiples_vanish_fancy(259462, 323, 366);
            }
            vstd::arithmetic::mul::lemma_mul_inequality(365, 366, y as int);
        } else {
            lemma_fundamental_div_mod(n as int, 365);
            vstd::arithmetic::div_mod::lemma_mod_bound(n as int, 365);
            vstd::arithmetic::div_mod::lemma_div_is_ordered(DAY_MIN as int, n as int, 365);
            assert(DAY_MIN as int / 365 == -260173) by {
                lemma_div_multiples_vanish_fancy(-260173, 95, 365);
            }
            vstd::arithmetic::div_mod::lemma_div_is_ordered(n as int, 0, 365);
            assert(0int / 365 == 0) by {
                lemma_div_multiples_vanish_fancy(0, 0, 365);
            }
            vstd::arithmetic::mul::lemma_mul_inequality(y as int, 0, 365);
            assert(366 * y as int <= 365 * y as int) by (nonlinear_arith)
                requires
                    y <= 0,
            ;
        }
        assert(days_before_year(y as int) <= n);
    }
    while days_before_year_exec(y + 1) <= n
        invariant
            DAY_MIN <= n <= DAY_MAX,
            DAY_MIN == days_before_year(YEAR_MIN as int),
            DAY_MAX == days_before_year(YEAR_MAX as int + 1) - 1,
            -300000 <= y <= YEAR_MAX,
            days_before_year(y as int) <= n,
        decreases YEAR_MAX - y,
    {
        proof {
            lemma_days_before_year_monotone(y as int + 1, YEAR_MAX as int + 1);
        }
        y = y + 1;
    }
    proof {
        // The year is now exact; in particular it is in the supported range.
        if y < YEAR_MIN {
            lemma_days_before_year_monotone(y as int + 1, YEAR_MIN as int);
        }
    }
    y
}

/// The calendar date holding a day number: the inverse of
/// `day_number_from_ymd`, for every supported day number.
pub fn ymd_from_day_number(n: i64) -> (r: (i64, u8, u8))
    requires
        DAY_MIN <= n <= DAY_MAX,
    ensures
        valid_ymd(r.0 as int, r.1 as int, r.2 as int),
        day_num_of_ymd(r.0 as int, r.1 as int, r.2 as int) == n,
{
    let y = year_of_day_number(n);
    let by = days_before_year_exec(y);
    let mut rem: i64 = n - by;
    let mut m: u8 = 1;
    proof {
        lemma_days_before_year_step(y as int);
        assert(rem < days_in_year(y as int));
    }
    while rem >= days_in_month_exec(y, m) as i64
        invariant
            i64::MIN < y < i64::MAX,
            1 <= m <= 12,
            0 <= rem,
            rem == n - days_before_year(y as int) - days_before_month(y as int, m as int),
            days_before_month(y as int, m as int) + rem < days_in_year(y as int),
        decreases 12 - m,
    {
        proof {
            lemma_days_before_month_step(y as int, m as int);
            if m == 12 {
                assert(days_before_month(y as int, 13) == days_in_year(y as int));
            }
        }
        rem = rem - days_in_month_exec(y, m) as i64;
        m = m + 1;
    }
    (y, m, rem as u8 + 1)
}

/// A calendar date: the year, month and day together with the day number
/// they stand for, so that both views are at hand in constant time.
#[derive(Clone, Copy, Debug, PartialEq, Eq, PartialOrd, Ord, Hash, Structural)]
pub struct Date {
    pub year: i64,
    pub month: u8,
    pub day: u8,
    pub day_number: i64,
}

impl Date {
    /// Validity: the fields are a valid calendar date and the stored day
    /// number is that date's day number.
    pub open spec fn wf(self) -> bool {
        &&& valid_ymd(self.year as int, self.month as int, self.day as int)
        &&& self.day_number == day_num_of_ymd(self.year as int, self.month as int, self.day as int)
    }

    pub open spec fn num(self) -> int {
        self.day_number as int
    }

    /// The date of the given calendar fields, or `None` when they do not
    /// name a date of a supported year.
    pub fn from_ymd(year: i64, month: u8, day: u8) -> (r: Option<Date>)
        ensures
            r is Some <==> valid_ymd(year as int, month as int, day as int),
            r matches Some(date) ==> date.wf() && date.year == year && date.month == month
                && date.day == day,
    {
        if YEAR_MIN <= year && year <= YEAR_MAX && 1 <= month && month <= 12 && 1 <= day
            && day <= days_in_month_exec(year, month) {
            let n = day_number_from_ymd(year, month, day);
            Some(Date { year, month, day, day_number: n })
        } else {
            None
        }
    }

    /// The date with the given day number.
    pub fn from_day_number(n: i64) -> (r: Date)
        requires
            DAY_MIN <= n <= DAY_MAX,
        ensures
            r.wf(),
            r.day_number == n,
    {
        let (y, m, d) = ymd_from_day_number(n);
        Date { year: y, month: m, day: d, day_number: n }
    }

    /// Weekday, 0 = Monday .. 6 = Sunday.
    pub fn weekday(&self) -> (r: u8)
        requires
            self.wf(),
        ensures
            r == weekday_of_day_num(self.num()),
    {
        proof {
            lemma_day_bounds();
            lemma_day_num_in_year(self.year as int, self.month as int, self.day as int);
            lemma_days_before_year_monotone(YEAR_MIN as int, self.year as int);
            lemma_days_before_year_monotone(self.year as int + 1, YEAR_MAX as int + 1);
            lemma_days_before_year_step(self.year as int);
        }
        rem_euclid_i64(self.day_number + 5, 7) as u8
    }

    /// The next day.
    pub fn succ(&self) -> (r: Date)
        requires
            self.wf(),
            self.num() < DAY_MAX,
        ensures
            r.wf(),
            r.num() == self.num() + 1,
    {
        proof {
            lemma_day_bounds();
            lemma_day_num_in_year(self.year as int, self.month as int, self.day as int);
            lemma_days_before_year_monotone(YEAR_MIN as int, self.year as int);
        }
        Date::from_day_number(self.day_number + 1)
    }
}

/// A valid date's day number is in the supported range.
pub proof fn lemma_valid_ymd_num_range(y: int, m: int, d: int)
    requires
        valid_ymd(y, m, d),
    ensures
        DAY_MIN <= day_num_of_ymd(y, m, d) <= DAY_MAX,
{
    lemma_day_bounds();
    lemma_day_num_in_year(y, m, d);
    lemma_days_before_year_monotone(YEAR_MIN as int, y);
    lemma_days_before_year_monotone(y + 1, YEAR_MAX as int + 1);
    lemma_days_before_year_step(y);
}

/// A valid date's day number is in the supported range.
pub proof fn lemma_wf_date_num_range(d: Date)
    requires
        d.wf(),
    ensures
        DAY_MIN <= d.num() <= DAY_MAX,
{
    lemma_valid_ymd_num_range(d.year as int, d.month as int, d.day as int);
}

} // verus!
