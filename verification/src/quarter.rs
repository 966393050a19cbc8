//! The quarter resolution: one period per calendar quarter, indexed by
//! quarters since the first quarter of year 0.

use vstd::prelude::*;

use crate::calendar::{self, day_num_of_ymd, ymd_of_day_num, Date, YEAR_MAX, YEAR_MIN};
use crate::month::Month;
use crate::year::Year;
use crate::{
    secs_of_day_num, DateResolution, FromMonotonic, Monotonic, TimeResolution, SECS_PER_DAY,
    UNIX_EPOCH_DAY,
};
use vstd::arithmetic::div_mod::{
    lemma_div_is_ordered, lemma_div_multiples_vanish_fancy, lemma_fundamental_div_mod,
};

verus! {

#[derive(Clone, Copy, Debug, PartialEq, Eq, PartialOrd, Ord, Hash, Structural)]
pub struct Quarter {
    pub n: i64,
}

impl Quarter {
    /// The calendar year this quarter index falls in.
    pub open spec fn year_spec(self) -> int {
        self.n as int / 4
    }

    /// The quarter number within its year, 1 to 4.
    pub open spec fn quarter_num_spec(self) -> int {
        self.n as int % 4 + 1
    }

    /// The first month (1 to 12) of this quarter within its year.
    pub open spec fn first_month_num_spec(self) -> int {
        3 * (self.n as int % 4) + 1
    }
}

/// The quarter index of a date: four per year, one per three months.
pub open spec fn quarter_index_of_ymd(y: int, m: int) -> int {
    4 * y + (m - 1) / 3
}

/// Day number of the first day of the quarter with the given index.
pub open spec fn quarter_start_day(n: int) -> int {
    day_num_of_ymd(n / 4, 3 * (n % 4) + 1, 1)
}

impl Monotonic for Quarter {
    open spec fn index_spec(self) -> int {
        self.n as int
    }

    proof fn lemma_index_bounded(self) {
    }

    fn to_monotonic(&self) -> i64 {
        self.n
    }

    fn between(&self, other: Self) -> i64 {
        other.n - self.n
    }
}

impl TimeResolution for Quarter {
    open spec fn advance_spec(self, delta: int) -> Self {
        Quarter { n: (self.n + delta) as i64 }
    }

    open spec fn start_secs_spec(self) -> int {
        secs_of_day_num(quarter_start_day(self.n as int))
    }

    open spec fn ts_valid(self) -> bool {
        4 * YEAR_MIN <= self.n <= 4 * YEAR_MAX + 3
    }

    proof fn lemma_advance(self, d1: int, d2: int) {
    }

    fn succ_n(&self, n: u64) -> Self {
        Quarter { n: self.n + n as i64 }
    }

    fn pred_n(&self, n: u64) -> Self {
        Quarter { n: self.n - n as i64 }
    }

    fn succ(&self) -> Self {
        Quarter { n: self.n + 1 }
    }

    fn pred(&self) -> Self {
        Quarter { n: self.n - 1 }
    }

    fn start_timestamp(&self) -> i64 {
        let d = self.start();
        proof {
            calendar::lemma_wf_date_num_range(d);
        }
        (d.day_number - UNIX_EPOCH_DAY) * SECS_PER_DAY
    }
}

impl FromMonotonic for Quarter {
    open spec fn from_index_spec(i: int) -> Self {
        Quarter { n: i as i64 }
    }

    proof fn lemma_from_index(i: int) {
    }

    proof fn lemma_from_index_advance(i: int, d: int) {
    }

    fn from_monotonic(idx: i64) -> Self {
        Quarter { n: idx }
    }
}

impl crate::FromTimestamp for Quarter {
    open spec fn from_ts_spec(ts: int) -> Self {
        Quarter::from_date_spec(crate::day_num_of_secs(ts), ())
    }

    open spec fn from_ts_ok(ts: int) -> bool {
        calendar::DAY_MIN <= crate::day_num_of_secs(ts) <= calendar::DAY_MAX
    }

    fn from_timestamp(ts: i64) -> Self {
        proof {
            calendar::lemma_div_bounds(ts as int, SECS_PER_DAY as int);
        }
        let dn = calendar::div_euclid_i64(ts, SECS_PER_DAY) + UNIX_EPOCH_DAY;
        let d = Date::from_day_number(dn);
        Quarter::from_date(&d, ())
    }
}

/// The division facts behind splitting a quarter index into year and
/// quarter of year.
proof fn lemma_quarter_split(y: int, q0: int)
    requires
        0 <= q0 < 4,
    ensures
        (4 * y + q0) / 4 == y,
        (4 * y + q0) % 4 == q0,
{
    lemma_div_multiples_vanish_fancy(y, q0, 4);
    lemma_fundamental_div_mod(4 * y + q0, 4);
}

/// A quarter index within the supported span has its year in range.
proof fn lemma_quarter_year_range(n: int)
    requires
        4 * YEAR_MIN <= n <= 4 * YEAR_MAX + 3,
    ensures
        YEAR_MIN <= n / 4 <= YEAR_MAX,
        0 <= n % 4 < 4,
{
    lemma_div_is_ordered(4 * YEAR_MIN as int, n, 4);
    lemma_quarter_split(YEAR_MIN as int, 0);
    lemma_div_is_ordered(n, 4 * YEAR_MAX as int + 3, 4);
    lemma_quarter_split(YEAR_MAX as int, 3);
    vstd::arithmetic::div_mod::lemma_mod_bound(n, 4);
}

/// Month `m` lies within the quarter `(m - 1) / 3` of its year.
proof fn lemma_month_in_quarter(m: int)
    requires
        1 <= m <= 12,
    ensures
        0 <= (m - 1) / 3 <= 3,
        3 * ((m - 1) / 3) + 1 <= m <= 3 * ((m - 1) / 3) + 3,
{
    lemma_fundamental_div_mod(m - 1, 3);
    vstd::arithmetic::div_mod::lemma_mod_bound(m - 1, 3);
    lemma_div_is_ordered(0, m - 1, 3);
    lemma_div_multiples_vanish_fancy(0, 0, 3);
    lemma_div_is_ordered(m - 1, 11, 3);
    lemma_div_multiples_vanish_fancy(3, 2, 3);
}

impl DateResolution for Quarter {
    type Params = ();

    open spec fn params_spec(self) -> () {
        ()
    }

    open spec fn start_day_spec(self) -> int {
        quarter_start_day(self.n as int)
    }

    open spec fn from_date_spec(day_num: int, params: ()) -> Self {
        Quarter {
            n: quarter_index_of_ymd(ymd_of_day_num(day_num).0, ymd_of_day_num(day_num).1) as i64,
        }
    }

    fn params(&self) -> () {
    }

    fn from_date(date: &Date, params: ()) -> Self {
        proof {
            calendar::lemma_ymd_of_day_num(
                date.year as int,
                date.month as int,
                date.day as int,
            );
            lemma_month_in_quarter(date.month as int);
        }
        let q0 = calendar::div_euclid_i64(date.month as i64 - 1, 3);
        Quarter { n: 4 * date.year + q0 }
    }

    fn start(&self) -> Date {
        proof {
            lemma_quarter_year_range(self.n as int);
        }
        let y = calendar::div_euclid_i64(self.n, 4);
        let m = 3 * (calendar::rem_euclid_i64(self.n, 4) as u8) + 1;
        proof {
            assert(y as int == self.n as int / 4);
            assert(m as int == 3 * (self.n as int % 4) + 1);
            assert(calendar::valid_ymd(y as int, m as int, 1));
        }
        let dn = calendar::day_number_from_ymd(y, m, 1);
        proof {
            assert(dn == quarter_start_day(self.n as int));
            assert(quarter_start_day(self.n as int) == self.start_day_spec());
        }
        Date { year: y, month: m, day: 1, day_number: dn }
    }

    proof fn lemma_from_date_covers(day_num: int, params: ()) {
        let t = ymd_of_day_num(day_num);
        crate::year::lemma_exists_ymd(day_num);
        let q0 = (t.1 - 1) / 3;
        lemma_month_in_quarter(t.1);
        let p = Self::from_date_spec(day_num, params);
        lemma_quarter_split(t.0, q0);
        assert(p.year_spec() == t.0 && p.quarter_num_spec() == q0 + 1);
        // The quarter's first month starts no later than the date.
        calendar::lemma_days_before_month_monotone(t.0, 3 * q0 + 1, t.1);
        // The next quarter starts strictly later.
        if q0 < 3 {
            lemma_quarter_split(t.0, q0 + 1);
            calendar::lemma_days_before_month_monotone(t.0, t.1 + 1, 3 * q0 + 4);
            calendar::lemma_days_before_month_step(t.0, t.1);
        } else {
            lemma_quarter_split(t.0 + 1, 0);
            calendar::lemma_days_before_month_monotone(t.0, t.1 + 1, 13);
            calendar::lemma_days_before_month_step(t.0, t.1);
            calendar::lemma_days_before_year_step(t.0);
        }
    }

    proof fn lemma_start_day(self, d: int) {
        if d > 0 {
            lemma_quarter_start_monotone(self.n as int, self.n as int + d);
        }
        if self.ts_valid() {
            lemma_quarter_year_range(self.n as int);
            calendar::lemma_valid_ymd_num_range(
                self.n as int / 4,
                3 * (self.n as int % 4) + 1,
                1,
            );
        }
    }

    proof fn lemma_from_date_monotone(d1: int, d2: int, params: ()) {
        crate::year::lemma_exists_ymd(d1);
        crate::year::lemma_exists_ymd(d2);
        let t1 = ymd_of_day_num(d1);
        let t2 = ymd_of_day_num(d2);
        lemma_month_in_quarter(t1.1);
        lemma_month_in_quarter(t2.1);
        if quarter_index_of_ymd(t1.0, t1.1) > quarter_index_of_ymd(t2.0, t2.1) {
            if t1.0 == t2.0 && (t1.1 - 1) / 3 > (t2.1 - 1) / 3 {
                vstd::arithmetic::div_mod::lemma_div_is_ordered(t1.1 - 1, t2.1 - 1, 3);
                calendar::lemma_day_num_order(t2.0, t2.1, t2.2, t1.0, t1.1, t1.2);
            } else if t1.0 > t2.0 {
                calendar::lemma_day_num_order(t2.0, t2.1, t2.2, t1.0, t1.1, t1.2);
            }
        }
    }
}

/// The first day of a quarter grows strictly with the quarter index.
proof fn lemma_quarter_start_monotone(n1: int, n2: int)
    requires
        n1 < n2,
    ensures
        day_num_of_ymd(n1 / 4, 3 * (n1 % 4) + 1, 1) < day_num_of_ymd(n2 / 4, 3 * (n2 % 4) + 1, 1),
    decreases n2 - n1,
{
    if n2 == n1 + 1 {
        lemma_fundamental_div_mod(n1, 4);
        vstd::arithmetic::div_mod::lemma_mod_bound(n1, 4);
        let y = n1 / 4;
        let q0 = n1 % 4;
        if q0 < 3 {
            lemma_quarter_split(y, q0 + 1);
            calendar::lemma_days_before_month_monotone(y, 3 * q0 + 1, 3 * q0 + 4);
        } else {
            lemma_quarter_split(y + 1, 0);
            calendar::lemma_days_before_month_monotone(y, 3 * q0 + 1, 13);
            calendar::lemma_days_before_year_step(y);
        }
    } else {
        lemma_quarter_start_monotone(n1, n2 - 1);
        lemma_quarter_start_monotone(n2 - 1, n2);
    }
}

impl Quarter {
    /// The quarter holding the given date.
    pub fn new(date: Date) -> (r: Quarter)
        requires
            date.wf(),
        ensures
            r == Quarter::from_date_spec(date.num(), ()),
    {
        Quarter::from_date(&date, ())
    }

    /// The first month of this quarter.
    pub fn first_month(&self) -> (r: Month)
        requires
            self.ts_valid(),
        ensures
            r.index_spec() == 12 * self.year_spec() + self.first_month_num_spec() - 1,
    {
        proof {
            lemma_quarter_year_range(self.n as int);
        }
        let y = calendar::div_euclid_i64(self.n, 4);
        let q0 = calendar::rem_euclid_i64(self.n, 4);
        Month { n: 12 * y + 3 * q0 }
    }

    /// The last month of this quarter.
    pub fn last_month(&self) -> (r: Month)
        requires
            self.ts_valid(),
        ensures
            r.index_spec() == 12 * self.year_spec() + self.first_month_num_spec() + 1,
    {
        proof {
            lemma_quarter_year_range(self.n as int);
        }
        let y = calendar::div_euclid_i64(self.n, 4);
        let q0 = calendar::rem_euclid_i64(self.n, 4);
        Month { n: 12 * y + 3 * q0 + 2 }
    }

    /// The year this quarter falls in.
    pub fn year(&self) -> (r: Year)
        ensures
            r.index_spec() == self.year_spec(),
    {
        Year { n: calendar::div_euclid_i64(self.n, 4) }
    }

    /// The calendar year number of this quarter.
    pub fn year_num(&self) -> (r: i32)
        requires
            self.ts_valid(),
        ensures
            r as int == self.year_spec(),
    {
        proof {
            lemma_quarter_year_range(self.n as int);
        }
        calendar::div_euclid_i64(self.n, 4) as i32
    }

    /// The quarter number within its year, 1 to 4.
    pub fn quarter_num(&self) -> (r: u32)
        ensures
            r as int == self.quarter_num_spec(),
    {
        proof {
            vstd::arithmetic::div_mod::lemma_mod_bound(self.n as int, 4);
        }
        calendar::rem_euclid_i64(self.n, 4) as u32 + 1
    }
}

} // verus!
