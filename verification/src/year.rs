//! The year resolution: one period per calendar year, indexed by the year
//! number itself.

use vstd::prelude::*;

use crate::calendar::{
    self, days_before_year, Date, DAY_MAX, DAY_MIN, YEAR_MAX, YEAR_MIN,
};
use crate::month::Month;
use crate::{
    secs_of_day_num, DateResolution, FromMonotonic, FromTimestamp, Monotonic, TimeResolution,
    SECS_PER_DAY, UNIX_EPOCH_DAY,
};

verus! {

#[derive(Clone, Copy, Debug, PartialEq, Eq, PartialOrd, Ord, Hash, Structural)]
pub struct Year {
    pub n: i64,
}

/// The year holding a day number, at the specification level.
pub open spec fn year_of_day_num(n: int) -> int {
    calendar::ymd_of_day_num(n).0
}

impl Monotonic for Year {
    open spec fn index_spec(self) -> int {
        self.n as int
    }

    proof fn lemma_index_bounded(self) {
    }

    fn to_monotonic(&self) -> i64 {
        self.n
    }

    fn between(&self, other: Self) -> i64 {
        other.n - self.n
    }
}

impl TimeResolution for Year {
    open spec fn advance_spec(self, delta: int) -> Self {
        Year { n: (self.n + delta) as i64 }
    }

    open spec fn start_secs_spec(self) -> int {
        secs_of_day_num(days_before_year(self.n as int))
    }

    open spec fn ts_valid(self) -> bool {
        YEAR_MIN <= self.n <= YEAR_MAX
    }

    proof fn lemma_advance(self, d1: int, d2: int) {
    }

    fn succ_n(&self, n: u64) -> Self {
        Year { n: self.n + n as i64 }
    }

    fn pred_n(&self, n: u64) -> Self {
        Year { n: self.n - n as i64 }
    }

    fn succ(&self) -> Self {
        Year { n: self.n + 1 }
    }

    fn pred(&self) -> Self {
        Year { n: self.n - 1 }
    }

    fn start_timestamp(&self) -> i64 {
        let d = calendar::days_before_year_exec(self.n);
        proof {
            calendar::lemma_day_bounds();
            calendar::lemma_days_before_year_monotone(YEAR_MIN as int, self.n as int);
            calendar::lemma_days_before_year_monotone(self.n as int, YEAR_MAX as int + 1);
        }
        (d - UNIX_EPOCH_DAY) * SECS_PER_DAY
    }
}

impl FromMonotonic for Year {
    open spec fn from_index_spec(i: int) -> Self {
        Year { n: i as i64 }
    }

    proof fn lemma_from_index(i: int) {
    }

    proof fn lemma_from_index_advance(i: int, d: int) {
    }

    fn from_monotonic(idx: i64) -> Self {
        Year { n: idx }
    }
}

impl crate::FromTimestamp for Year {
    open spec fn from_ts_spec(ts: int) -> Self {
        Year { n: year_of_day_num(crate::day_num_of_secs(ts)) as i64 }
    }

    open spec fn from_ts_ok(ts: int) -> bool {
        DAY_MIN <= crate::day_num_of_secs(ts) <= DAY_MAX
    }

    fn from_timestamp(ts: i64) -> Self {
        proof {
            calendar::lemma_div_bounds(ts as int, SECS_PER_DAY as int);
        }
        let dn = calendar::div_euclid_i64(ts, SECS_PER_DAY) + UNIX_EPOCH_DAY;
        let d = Date::from_day_number(dn);
        Year::from_date(&d, ())
    }
}

impl DateResolution for Year {
    type Params = ();

    open spec fn params_spec(self) -> () {
        ()
    }

    open spec fn start_day_spec(self) -> int {
        days_before_year(self.n as int)
    }

    open spec fn from_date_spec(day_num: int, params: ()) -> Self {
        Year { n: year_of_day_num(day_num) as i64 }
    }

    fn params(&self) -> () {
    }

    fn from_date(date: &Date, params: ()) -> Self {
        proof {
            calendar::lemma_ymd_of_day_num(
                date.year as int,
                date.month as int,
                date.day as int,
            );
        }
        Year { n: date.year }
    }

    fn start(&self) -> Date {
        let d = calendar::days_before_year_exec(self.n);
        proof {
            calendar::lemma_day_bounds();
            calendar::lemma_days_before_year_monotone(YEAR_MIN as int, self.n as int);
            calendar::lemma_days_before_year_monotone(self.n as int + 1, YEAR_MAX as int + 1);
            calendar::lemma_days_before_year_step(self.n as int);
            assert(days_before_year(self.n as int) == calendar::day_num_of_ymd(
                self.n as int,
                1,
                1,
            ));
        }
        Date { year: self.n, month: 1, day: 1, day_number: d }
    }

    proof fn lemma_from_date_covers(day_num: int, params: ()) {
        let t = calendar::ymd_of_day_num(day_num);
        lemma_exists_ymd(day_num);
        calendar::lemma_day_num_in_year(t.0, t.1, t.2);
        calendar::lemma_days_before_year_step(t.0);
    }

    proof fn lemma_start_day(self, d: int) {
        if d > 0 {
            calendar::lemma_days_before_year_monotone(self.n as int, self.n as int + d);
        }
        if self.ts_valid() {
            calendar::lemma_valid_ymd_num_range(self.n as int, 1, 1);
        }
    }

    proof fn lemma_from_date_monotone(d1: int, d2: int, params: ()) {
        lemma_exists_ymd(d1);
        lemma_exists_ymd(d2);
        let t1 = calendar::ymd_of_day_num(d1);
        let t2 = calendar::ymd_of_day_num(d2);
        if t1.0 > t2.0 {
            calendar::lemma_day_num_order(t2.0, t2.1, t2.2, t1.0, t1.1, t1.2);
        }
    }
}

/// Every supported day number is the day number of some valid date, so
/// `ymd_of_day_num` is meaningful on it.
pub proof fn lemma_exists_ymd(day_num: int)
    requires
        DAY_MIN <= day_num <= DAY_MAX,
    ensures
        ({
            let t = calendar::ymd_of_day_num(day_num);
            calendar::valid_ymd(t.0, t.1, t.2) && calendar::day_num_of_ymd(t.0, t.1, t.2)
                == day_num
        }),
{
    lemma_surjective(day_num);
    let t0 = choose|t: (int, int, int)|
        calendar::valid_ymd(t.0, t.1, t.2) && calendar::day_num_of_ymd(t.0, t.1, t.2) == day_num;
    calendar::lemma_ymd_of_day_num(t0.0, t0.1, t0.2);
}

/// Surjectivity of the day numbering, by induction on the day number.
proof fn lemma_surjective(day_num: int)
    requires
        DAY_MIN <= day_num <= DAY_MAX,
    ensures
        exists|t: (int, int, int)|
            calendar::valid_ymd(t.0, t.1, t.2) && calendar::day_num_of_ymd(t.0, t.1, t.2)
                == day_num,
    decreases day_num - DAY_MIN,
{
    calendar::lemma_day_bounds();
    if day_num == DAY_MIN {
        let t = (YEAR_MIN as int, 1int, 1int);
        assert(calendar::valid_ymd(t.0, t.1, t.2) && calendar::day_num_of_ymd(t.0, t.1, t.2)
            == day_num);
    } else {
        lemma_surjective(day_num - 1);
        let p = choose|t: (int, int, int)|
            calendar::valid_ymd(t.0, t.1, t.2) && calendar::day_num_of_ymd(t.0, t.1, t.2)
                == day_num - 1;
        if p.2 < calendar::days_in_month(p.0, p.1) {
            let t = (p.0, p.1, p.2 + 1);
            assert(calendar::valid_ymd(t.0, t.1, t.2) && calendar::day_num_of_ymd(t.0, t.1, t.2)
                == day_num);
        } else if p.1 < 12 {
            let t = (p.0, p.1 + 1, 1int);
            calendar::lemma_days_before_month_step(p.0, p.1);
            assert(calendar::valid_ymd(t.0, t.1, t.2) && calendar::day_num_of_ymd(t.0, t.1, t.2)
                == day_num);
        } else {
            let t = (p.0 + 1, 1int, 1int);
            calendar::lemma_days_before_month_step(p.0, 12);
            calendar::lemma_days_before_year_step(p.0);
            calendar::lemma_day_num_in_year(p.0, p.1, p.2);
            if p.0 + 1 > YEAR_MAX {
                calendar::lemma_day_num_in_year(p.0, 12, 31);
                assert(false);
            }
            assert(calendar::valid_ymd(t.0, t.1, t.2) && calendar::day_num_of_ymd(t.0, t.1, t.2)
                == day_num);
        }
    }
}

impl Year {
    /// The year with the given number.
    pub fn new(year: i32) -> (r: Year)
        ensures
            r.index_spec() == year as int,
    {
        Year { n: year as i64 }
    }

    /// The calendar year number.
    pub fn year_num(&self) -> (r: i32)
        requires
            self.ts_valid(),
        ensures
            r as int == self.index_spec(),
    {
        self.n as i32
    }

    /// The first month of the year.
    pub fn first_month(&self) -> (r: Month)
        requires
            self.ts_valid(),
        ensures
            r.index_spec() == 12 * self.index_spec(),
    {
        Month { n: 12 * self.n }
    }

    /// The last month of the year.
    pub fn last_month(&self) -> (r: Month)
        requires
            self.ts_valid(),
        ensures
            r.index_spec() == 12 * self.index_spec() + 11,
    {
        Month { n: 12 * self.n + 11 }
    }

    /// The first month of the first quarter of the year.
    pub fn first_quarter(&self) -> (r: Month)
        requires
            self.ts_valid(),
        ensures
            r.index_spec() == 12 * self.index_spec(),
    {
        Month { n: 12 * self.n }
    }

    /// The first month of the last quarter of the year.
    pub fn last_quarter(&self) -> (r: Month)
        requires
            self.ts_valid(),
        ensures
            r.index_spec() == 12 * self.index_spec() + 11,
    {
        Month { n: 12 * self.n + 11 }
    }
}

} // verus!
