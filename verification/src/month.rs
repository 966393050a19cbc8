//! The month resolution: one period per calendar month, indexed by months
//! since January of year 0.

use vstd::prelude::*;

use crate::calendar::{
    self, day_num_of_ymd, ymd_of_day_num, Date, YEAR_MAX, YEAR_MIN,
};
use crate::quarter::Quarter;
use crate::year::Year;
use crate::{
    secs_of_day_num, DateResolution, FromMonotonic, FromTimestamp, Monotonic, TimeResolution,
    SECS_PER_DAY, UNIX_EPOCH_DAY,
};
use vstd::arithmetic::div_mod::{
    lemma_div_is_ordered, lemma_div_multiples_vanish_fancy, lemma_fundamental_div_mod,
};

verus! {

/// A calendar month of the year.
#[derive(Clone, Copy, Debug, PartialEq, Eq, PartialOrd, Ord, Hash, Structural)]
pub enum MonthOfYear {
    January,
    February,
    March,
    April,
    May,
    June,
    July,
    August,
    September,
    October,
    November,
    December,
}

impl MonthOfYear {
    /// The month's number, 1 = January .. 12 = December.
    pub open spec fn number_spec(self) -> int {
        match self {
            MonthOfYear::January => 1,
            MonthOfYear::February => 2,
            MonthOfYear::March => 3,
            MonthOfYear::April => 4,
            MonthOfYear::May => 5,
            MonthOfYear::June => 6,
            MonthOfYear::July => 7,
            MonthOfYear::August => 8,
            MonthOfYear::September => 9,
            MonthOfYear::October => 10,
            MonthOfYear::November => 11,
            MonthOfYear::December => 12,
        }
    }

    pub fn number_from_month(&self) -> (r: u8)
        ensures
            r == self.number_spec(),
    {
        match self {
            MonthOfYear::January => 1,
            MonthOfYear::February => 2,
            MonthOfYear::March => 3,
            MonthOfYear::April => 4,
            MonthOfYear::May => 5,
            MonthOfYear::June => 6,
            MonthOfYear::July => 7,
            MonthOfYear::August => 8,
            MonthOfYear::September => 9,
            MonthOfYear::October => 10,
            MonthOfYear::November => 11,
            MonthOfYear::December => 12,
        }
    }

    /// The month with the given number, 1 to 12.
    pub fn from_number(m: u8) -> (r: Option<MonthOfYear>)
        ensures
            r is Some <==> 1 <= m <= 12,
            r matches Some(month) ==> month.number_spec() == m,
    {
        match m {
            1 => Some(MonthOfYear::January),
            2 => Some(MonthOfYear::February),
            3 => Some(MonthOfYear::March),
            4 => Some(MonthOfYear::April),
            5 => Some(MonthOfYear::May),
            6 => Some(MonthOfYear::June),
            7 => Some(MonthOfYear::July),
            8 => Some(MonthOfYear::August),
            9 => Some(MonthOfYear::September),
            10 => Some(MonthOfYear::October),
            11 => Some(MonthOfYear::November),
            12 => Some(MonthOfYear::December),
            _ => None,
        }
    }
}

#[derive(Clone, Copy, Debug, PartialEq, Eq, PartialOrd, Ord, Hash, Structural)]
pub struct Month {
    pub n: i64,
}

impl Month {
    /// The calendar year this month index falls in.
    pub open spec fn year_spec(self) -> int {
        self.n as int / 12
    }

    /// The month number within its year, 1 to 12.
    pub open spec fn month_spec(self) -> int {
        self.n as int % 12 + 1
    }
}

impl Monotonic for Month {
    open spec fn index_spec(self) -> int {
        self.n as int
    }

    proof fn lemma_index_bounded(self) {
    }

    fn to_monotonic(&self) -> i64 {
        self.n
    }

    fn between(&self, other: Self) -> i64 {
        other.n - self.n
    }
}

impl TimeResolution for Month {
    open spec fn advance_spec(self, delta: int) -> Self {
        Month { n: (self.n + delta) as i64 }
    }

    open spec fn start_secs_spec(self) -> int {
        secs_of_day_num(month_start_day(self.n as int))
    }

    open spec fn ts_valid(self) -> bool {
        12 * YEAR_MIN <= self.n <= 12 * YEAR_MAX + 11
    }

    proof fn lemma_advance(self, d1: int, d2: int) {
    }

    fn succ_n(&self, n: u64) -> Self {
        Month { n: self.n + n as i64 }
    }

    fn pred_n(&self, n: u64) -> Self {
        Month { n: self.n - n as i64 }
    }

    fn succ(&self) -> Self {
        Month { n: self.n + 1 }
    }

    fn pred(&self) -> Self {
        Month { n: self.n - 1 }
    }

    fn start_timestamp(&self) -> i64 {
        let d = self.start();
        proof {
            calendar::lemma_wf_date_num_range(d);
        }
        (d.day_number - UNIX_EPOCH_DAY) * SECS_PER_DAY
    }
}

impl FromMonotonic for Month {
    open spec fn from_index_spec(i: int) -> Self {
        Month { n: i as i64 }
    }

    proof fn lemma_from_index(i: int) {
    }

    proof fn lemma_from_index_advance(i: int, d: int) {
    }

    fn from_monotonic(idx: i64) -> Self {
        Month { n: idx }
    }
}

impl FromTimestamp for Month {
    open spec fn from_ts_spec(ts: int) -> Self {
        Month::from_date_spec(crate::day_num_of_secs(ts), ())
    }

    open spec fn from_ts_ok(ts: int) -> bool {
        calendar::DAY_MIN <= crate::day_num_of_secs(ts) <= calendar::DAY_MAX
    }

    fn from_timestamp(ts: i64) -> Self {
        proof {
            calendar::lemma_div_bounds(ts as int, SECS_PER_DAY as int);
        }
        let dn = calendar::div_euclid_i64(ts, SECS_PER_DAY) + UNIX_EPOCH_DAY;
        let d = Date::from_day_number(dn);
        Month::from_date(&d, ())
    }
}

/// Day number of the first day of the month with the given index.
pub open spec fn month_start_day(n: int) -> int {
    day_num_of_ymd(n / 12, n % 12 + 1, 1)
}

/// The division facts behind splitting a month index into year and month.
proof fn lemma_month_split(y: int, m0: int)
    requires
        0 <= m0 < 12,
    ensures
        (12 * y + m0) / 12 == y,
        (12 * y + m0) % 12 == m0,
{
    lemma_div_multiples_vanish_fancy(y, m0, 12);
    lemma_fundamental_div_mod(12 * y + m0, 12);
}

/// A month index within the supported span has its year in range.
proof fn lemma_month_year_range(n: int)
    requires
        12 * YEAR_MIN <= n <= 12 * YEAR_MAX + 11,
    ensures
        YEAR_MIN <= n / 12 <= YEAR_MAX,
        1 <= n % 12 + 1 <= 12,
{
    lemma_div_is_ordered(12 * YEAR_MIN as int, n, 12);
    lemma_month_split(YEAR_MIN as int, 0);
    lemma_div_is_ordered(n, 12 * YEAR_MAX as int + 11, 12);
    lemma_month_split(YEAR_MAX as int, 11);
    vstd::arithmetic::div_mod::lemma_mod_bound(n, 12);
}

impl DateResolution for Month {
    type Params = ();

    open spec fn params_spec(self) -> () {
        ()
    }

    open spec fn start_day_spec(self) -> int {
        month_start_day(self.n as int)
    }

    open spec fn from_date_spec(day_num: int, params: ()) -> Self {
        Month { n: (12 * ymd_of_day_num(day_num).0 + ymd_of_day_num(day_num).1 - 1) as i64 }
    }

    fn params(&self) -> () {
    }

    fn from_date(date: &Date, params: ()) -> Self {
        proof {
            calendar::lemma_ymd_of_day_num(
                date.year as int,
                date.month as int,
                date.day as int,
            );
        }
        Month { n: 12 * date.year + (date.month as i64 - 1) }
    }

    fn start(&self) -> Date {
        proof {
            lemma_month_year_range(self.n as int);
        }
        let y = calendar::div_euclid_i64(self.n, 12);
        let m = calendar::rem_euclid_i64(self.n, 12) as u8 + 1;
        proof {
            assert(y as int == self.n as int / 12);
            assert(m as int == self.n as int % 12 + 1);
            assert(calendar::valid_ymd(y as int, m as int, 1));
        }
        let dn = calendar::day_number_from_ymd(y, m, 1);
        proof {
            assert(dn == calendar::day_num_of_ymd(y as int, m as int, 1));
            assert(dn == month_start_day(self.n as int));
            assert(month_start_day(self.n as int) == self.start_day_spec());
        }
        Date { year: y, month: m, day: 1, day_number: dn }
    }

    proof fn lemma_from_date_covers(day_num: int, params: ()) {
        let t = ymd_of_day_num(day_num);
        crate::year::lemma_exists_ymd(day_num);
        let p = Self::from_date_spec(day_num, params);
        lemma_month_split(t.0, t.1 - 1);
        assert(p.year_spec() == t.0 && p.month_spec() == t.1);
        let q = p.advance_spec(1);
        if t.1 < 12 {
            lemma_month_split(t.0, t.1);
            calendar::lemma_days_before_month_step(t.0, t.1);
        } else {
            lemma_month_split(t.0 + 1, 0);
            calendar::lemma_days_before_month_step(t.0, 12);
            calendar::lemma_days_before_year_step(t.0);
        }
    }

    proof fn lemma_start_day(self, d: int) {
        if d > 0 {
            lemma_start_day_monotone(self.n as int, self.n as int + d);
        }
        if self.ts_valid() {
            lemma_month_year_range(self.n as int);
            calendar::lemma_valid_ymd_num_range(
                self.n as int / 12,
                self.n as int % 12 + 1,
                1,
            );
        }
    }

    proof fn lemma_from_date_monotone(d1: int, d2: int, params: ()) {
        crate::year::lemma_exists_ymd(d1);
        crate::year::lemma_exists_ymd(d2);
        let t1 = ymd_of_day_num(d1);
        let t2 = ymd_of_day_num(d2);
        if 12 * t1.0 + t1.1 > 12 * t2.0 + t2.1 {
            if t1.0 > t2.0 || (t1.0 == t2.0 && t1.1 > t2.1) {
                calendar::lemma_day_num_order(t2.0, t2.1, t2.2, t1.0, t1.1, t1.2);
            }
        }
    }
}

/// The first day of a month grows strictly with the month index.
proof fn lemma_start_day_monotone(n1: int, n2: int)
    requires
        n1 < n2,
    ensures
        day_num_of_ymd(n1 / 12, n1 % 12 + 1, 1) < day_num_of_ymd(n2 / 12, n2 % 12 + 1, 1),
    decreases n2 - n1,
{
    if n2 == n1 + 1 {
        lemma_fundamental_div_mod(n1, 12);
        vstd::arithmetic::div_mod::lemma_mod_bound(n1, 12);
        let y = n1 / 12;
        let m0 = n1 % 12;
        if m0 < 11 {
            lemma_month_split(y, m0 + 1);
            calendar::lemma_days_before_month_step(y, m0 + 1);
        } else {
            lemma_month_split(y + 1, 0);
            calendar::lemma_days_before_month_step(y, 12);
            calendar::lemma_days_before_year_step(y);
        }
    } else {
        lemma_start_day_monotone(n1, n2 - 1);
        lemma_start_day_monotone(n2 - 1, n2);
    }
}

impl Month {
    /// The month holding the given date.
    pub fn new(date: Date) -> (r: Month)
        requires
            date.wf(),
        ensures
            r == Month::from_date_spec(date.num(), ()),
    {
        Month::from_date(&date, ())
    }

    /// The month of the given calendar year and month of year.
    pub fn from_parts(year: i32, month: MonthOfYear) -> (r: Month)
        ensures
            r.index_spec() == 12 * year + month.number_spec() - 1,
    {
        let m = month.number_from_month();
        Month { n: 12 * (year as i64) + (m as i64 - 1) }
    }

    /// The year this month falls in.
    pub fn year(&self) -> (r: Year)
        ensures
            r.index_spec() == self.year_spec(),
    {
        Year { n: calendar::div_euclid_i64(self.n, 12) }
    }

    /// The quarter this month falls in.
    pub fn quarter(&self) -> (r: Quarter)
        requires
            self.ts_valid(),
        ensures
            r == Quarter::from_date_spec(self.start_day_spec(), ()),
    {
        let d = self.start();
        Quarter::from_date(&d, ())
    }

    /// The calendar year number of this month.
    pub fn year_num(&self) -> (r: i32)
        requires
            self.ts_valid(),
        ensures
            r as int == self.year_spec(),
    {
        proof {
            lemma_month_year_range(self.n as int);
        }
        calendar::div_euclid_i64(self.n, 12) as i32
    }

    /// The month number within its year, 1 to 12.
    pub fn month_num(&self) -> (r: u32)
        ensures
            r as int == self.month_spec(),
    {
        proof {
            vstd::arithmetic::div_mod::lemma_mod_bound(self.n as int, 12);
        }
        calendar::rem_euclid_i64(self.n, 12) as u32 + 1
    }

    /// The month of the year of this month.
    pub fn month(&self) -> (r: MonthOfYear)
        ensures
            r.number_spec() == self.month_spec(),
    {
        proof {
            vstd::arithmetic::div_mod::lemma_mod_bound(self.n as int, 12);
        }
        let m = calendar::rem_euclid_i64(self.n, 12) as u8 + 1;
        MonthOfYear::from_number(m).unwrap()
    }
}

} // verus!
