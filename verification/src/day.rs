//! The day resolution: one period per calendar day, indexed by day number
//! (index 0 is 1 January of year 0).

use vstd::prelude::*;

use crate::calendar::{self, Date, DAY_MAX, DAY_MIN};
use crate::month::Month;
use crate::quarter::Quarter;
use crate::year::Year;
use crate::{
    secs_of_day_num, DateResolution, FromMonotonic, FromTimestamp, Monotonic, TimeResolution,
    SECS_PER_DAY, UNIX_EPOCH_DAY,
};

verus! {

#[derive(Clone, Copy, Debug, PartialEq, Eq, PartialOrd, Ord, Hash, Structural)]
pub struct Day {
    pub n: i64,
}

impl Monotonic for Day {
    open spec fn index_spec(self) -> int {
        self.n as int
    }

    proof fn lemma_index_bounded(self) {
    }

    fn to_monotonic(&self) -> i64 {
        self.n
    }

    fn between(&self, other: Self) -> i64 {
        other.n - self.n
    }
}

impl TimeResolution for Day {
    open spec fn advance_spec(self, delta: int) -> Self {
        Day { n: (self.n + delta) as i64 }
    }

    open spec fn start_secs_spec(self) -> int {
        secs_of_day_num(self.n as int)
    }

    open spec fn ts_valid(self) -> bool {
        DAY_MIN <= self.n <= DAY_MAX
    }

    proof fn lemma_advance(self, d1: int, d2: int) {
    }

    fn succ_n(&self, n: u64) -> Self {
        Day { n: self.n + n as i64 }
    }

    fn pred_n(&self, n: u64) -> Self {
        Day { n: self.n - n as i64 }
    }

    fn succ(&self) -> Self {
        Day { n: self.n + 1 }
    }

    fn pred(&self) -> Self {
        Day { n: self.n - 1 }
    }

    fn start_timestamp(&self) -> i64 {
        (self.n - UNIX_EPOCH_DAY) * SECS_PER_DAY
    }
}

impl FromMonotonic for Day {
    open spec fn from_index_spec(i: int) -> Self {
        Day { n: i as i64 }
    }

    proof fn lemma_from_index(i: int) {
    }

    proof fn lemma_from_index_advance(i: int, d: int) {
    }

    fn from_monotonic(idx: i64) -> Self {
        Day { n: idx }
    }
}

impl FromTimestamp for Day {
    open spec fn from_ts_spec(ts: int) -> Self {
        Day { n: (ts / (SECS_PER_DAY as int) + UNIX_EPOCH_DAY) as i64 }
    }

    open spec fn from_ts_ok(ts: int) -> bool {
        true
    }

    fn from_timestamp(ts: i64) -> Self {
        proof {
            calendar::lemma_div_bounds(ts as int, SECS_PER_DAY as int);
        }
        Day { n: calendar::div_euclid_i64(ts, SECS_PER_DAY) + UNIX_EPOCH_DAY }
    }
}

impl DateResolution for Day {
    type Params = ();

    open spec fn params_spec(self) -> () {
        ()
    }

    open spec fn start_day_spec(self) -> int {
        self.n as int
    }

    open spec fn from_date_spec(day_num: int, params: ()) -> Self {
        Day { n: day_num as i64 }
    }

    fn params(&self) -> () {
    }

    fn from_date(date: &Date, params: ()) -> Self {
        proof {
            calendar::lemma_wf_date_num_range(*date);
        }
        Day { n: date.day_number }
    }

    fn start(&self) -> Date {
        Date::from_day_number(self.n)
    }

    proof fn lemma_from_date_covers(day_num: int, params: ()) {
    }

    proof fn lemma_start_day(self, d: int) {
    }

    proof fn lemma_from_date_monotone(d1: int, d2: int, params: ()) {
    }
}

impl Day {
    /// The day holding the given date.
    pub fn new(date: Date) -> (r: Day)
        requires
            date.wf(),
        ensures
            r == Day::from_date_spec(date.num(), ()),
    {
        Day::from_date(&date, ())
    }

    /// The year this day falls in.
    pub fn year(&self) -> (r: Year)
        requires
            self.ts_valid(),
        ensures
            r == Year::from_date_spec(self.start_day_spec(), ()),
    {
        let d = self.start();
        Year::from_date(&d, ())
    }

    /// The quarter this day falls in.
    pub fn quarter(&self) -> (r: Quarter)
        requires
            self.ts_valid(),
        ensures
            r == Quarter::from_date_spec(self.start_day_spec(), ()),
    {
        let d = self.start();
        Quarter::from_date(&d, ())
    }

    /// The month this day falls in.
    pub fn month(&self) -> (r: Month)
        requires
            self.ts_valid(),
        ensures
            r == Month::from_date_spec(self.start_day_spec(), ()),
    {
        let d = self.start();
        Month::from_date(&d, ())
    }

    /// The week with the chosen start weekday holding this day.
    pub fn week<D: crate::week::StartDay>(&self) -> (r: crate::week::Week<D>)
        requires
            self.ts_valid(),
        ensures
            r == crate::week::Week::<D>::from_date_spec(self.start_day_spec(), ()),
    {
        let d = self.start();
        crate::week::Week::from_date(&d, ())
    }

    /// The calendar year number of this day.
    pub fn year_num(&self) -> (r: i32)
        requires
            self.ts_valid(),
        ensures
            r as int == calendar::ymd_of_day_num(self.start_day_spec()).0,
    {
        let d = self.start();
        proof {
            calendar::lemma_ymd_of_day_num(d.year as int, d.month as int, d.day as int);
        }
        d.year as i32
    }

    /// The calendar month number of this day, 1 to 12.
    pub fn month_num(&self) -> (r: u8)
        requires
            self.ts_valid(),
        ensures
            r == calendar::ymd_of_day_num(self.start_day_spec()).1,
    {
        let d = self.start();
        proof {
            calendar::lemma_ymd_of_day_num(d.year as int, d.month as int, d.day as int);
        }
        d.month
    }
}

} // verus!
