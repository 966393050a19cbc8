//! The week resolution: one period per seven days, with a configurable
//! start weekday chosen by a marker type, indexed by whole weeks since the
//! week of 4 January 2021 (the Monday of the first ISO week of 2021; weeks
//! of the other start weekdays are anchored in the same calendar week).

use vstd::prelude::*;

use core::marker::PhantomData;

use crate::calendar::{self, weekday_of_day_num, Date, DAY_MAX, DAY_MIN};
use crate::{
    day_num_of_secs, secs_of_day_num, DateResolution, FromMonotonic, FromTimestamp, Monotonic,
    TimeResolution, SECS_PER_DAY, UNIX_EPOCH_DAY,
};
use vstd::arithmetic::div_mod::{
    lemma_fundamental_div_mod, lemma_div_multiples_vanish_fancy,
};

verus! {

/// Day number of Monday, 4 January 2021, the anchor of week index 0.
pub const WEEK_BASE_DAY: i64 = 738159;


/// The week anchor is what its name says: day `WEEK_BASE_DAY` is
/// 4 January 2021, and it is a Monday.
pub proof fn lemma_week_base()
    ensures
        WEEK_BASE_DAY as int == calendar::day_num_of_ymd(2021, 1, 4),
        weekday_of_day_num(WEEK_BASE_DAY as int) == 0,
{
    assert(2024int / 4 == 506) by {
        lemma_div_multiples_vanish_fancy(506, 0, 4);
    }
    assert(2120int / 100 == 21) by {
        lemma_div_multiples_vanish_fancy(21, 20, 100);
    }
    assert(2420int / 400 == 6) by {
        lemma_div_multiples_vanish_fancy(6, 20, 400);
    }
    assert(738164int % 7 == 0) by {
        lemma_div_multiples_vanish_fancy(105452, 0, 7);
        lemma_fundamental_div_mod(738164, 7);
    }
}

/// Part of this crate's sealed set of week start weekdays.
pub trait Sealed {

}

/// A marker choosing which weekday a week starts on.
pub trait StartDay: Sealed + Sized + Copy {
    /// The start weekday, 0 = Monday .. 6 = Sunday.
    spec fn weekday_spec() -> int;

    proof fn lemma_weekday_range()
        ensures
            0 <= Self::weekday_spec() <= 6,
    ;

    fn weekday_num() -> (r: u8)
        ensures
            r as int == Self::weekday_spec(),
    ;
}

#[derive(Clone, Copy, Debug, PartialEq, Eq, PartialOrd, Ord, Hash, Structural)]
pub struct Monday;

#[derive(Clone, Copy, Debug, PartialEq, Eq, PartialOrd, Ord, Hash, Structural)]
pub struct Tuesday;

#[derive(Clone, Copy, Debug, PartialEq, Eq, PartialOrd, Ord, Hash, Structural)]
pub struct Wednesday;

#[derive(Clone, Copy, Debug, PartialEq, Eq, PartialOrd, Ord, Hash, Structural)]
pub struct Thursday;

#[derive(Clone, Copy, Debug, PartialEq, Eq, PartialOrd, Ord, Hash, Structural)]
pub struct Friday;

#[derive(Clone, Copy, Debug, PartialEq, Eq, PartialOrd, Ord, Hash, Structural)]
pub struct Saturday;

#[derive(Clone, Copy, Debug, PartialEq, Eq, PartialOrd, Ord, Hash, Structural)]
pub struct Sunday;

impl Sealed for Monday {

}

impl Sealed for Tuesday {

}

impl Sealed for Wednesday {

}

impl Sealed for Thursday {

}

impl Sealed for Friday {

}

impl Sealed for Saturday {

}

impl Sealed for Sunday {

}

impl StartDay for Monday {
    open spec fn weekday_spec() -> int {
        0
    }

    proof fn lemma_weekday_range() {
    }

    fn weekday_num() -> u8 {
        0
    }
}

impl StartDay for Tuesday {
    open spec fn weekday_spec() -> int {
        1
    }

    proof fn lemma_weekday_range() {
    }

    fn weekday_num() -> u8 {
        1
    }
}

impl StartDay for Wednesday {
    open spec fn weekday_spec() -> int {
        2
    }

    proof fn lemma_weekday_range() {
    }

    fn weekday_num() -> u8 {
        2
    }
}

impl StartDay for Thursday {
    open spec fn weekday_spec() -> int {
        3
    }

    proof fn lemma_weekday_range() {
    }

    fn weekday_num() -> u8 {
        3
    }
}

impl StartDay for Friday {
    open spec fn weekday_spec() -> int {
        4
    }

    proof fn lemma_weekday_range() {
    }

    fn weekday_num() -> u8 {
        4
    }
}

impl StartDay for Saturday {
    open spec fn weekday_spec() -> int {
        5
    }

    proof fn lemma_weekday_range() {
    }

    fn weekday_num() -> u8 {
        5
    }
}

impl StartDay for Sunday {
    open spec fn weekday_spec() -> int {
        6
    }

    proof fn lemma_weekday_range() {
    }

    fn weekday_num() -> u8 {
        6
    }
}

/// Day number of the first day of the week with index `n` among weeks
/// starting on weekday `wd`.
pub open spec fn week_start_day(n: int, wd: int) -> int {
    WEEK_BASE_DAY as int + wd + 7 * n
}

/// Week index of the week containing the day `day_num`, among weeks
/// starting on weekday `wd`.
pub open spec fn week_index_of_day(day_num: int, wd: int) -> int {
    (day_num - (WEEK_BASE_DAY as int + wd)) / 7
}

#[derive(Copy, Debug, PartialEq, Eq, PartialOrd, Ord, Hash)]
pub struct Week<D: StartDay> {
    pub n: i64,
    pub marker: PhantomData<D>,
}

impl<D: StartDay> Clone for Week<D> {
    fn clone(&self) -> (r: Self)
        ensures
            r == *self,
    {
        *self
    }
}

impl<D: StartDay> Monotonic for Week<D> {
    open spec fn index_spec(self) -> int {
        self.n as int
    }

    proof fn lemma_index_bounded(self) {
    }

    fn to_monotonic(&self) -> i64 {
        self.n
    }

    fn between(&self, other: Self) -> i64 {
        other.n - self.n
    }
}

impl<D: StartDay> TimeResolution for Week<D> {
    open spec fn advance_spec(self, delta: int) -> Self {
        Week { n: (self.n + delta) as i64, marker: self.marker }
    }

    open spec fn start_secs_spec(self) -> int {
        secs_of_day_num(week_start_day(self.n as int, D::weekday_spec()))
    }

    open spec fn ts_valid(self) -> bool {
        DAY_MIN <= week_start_day(self.n as int, D::weekday_spec()) <= DAY_MAX
    }

    proof fn lemma_advance(self, d1: int, d2: int) {
        assert(self.advance_spec(0) =~= self);
    }

    fn succ_n(&self, n: u64) -> Self {
        Week { n: self.n + n as i64, marker: PhantomData }
    }

    fn pred_n(&self, n: u64) -> Self {
        Week { n: self.n - n as i64, marker: PhantomData }
    }

    fn succ(&self) -> Self {
        Week { n: self.n + 1, marker: PhantomData }
    }

    fn pred(&self) -> Self {
        Week { n: self.n - 1, marker: PhantomData }
    }

    fn start_timestamp(&self) -> i64 {
        proof {
            D::lemma_weekday_range();
        }
        let sd = WEEK_BASE_DAY + D::weekday_num() as i64 + 7 * self.n;
        (sd - UNIX_EPOCH_DAY) * SECS_PER_DAY
    }
}

impl<D: StartDay> FromMonotonic for Week<D> {
    open spec fn from_index_spec(i: int) -> Self {
        Week { n: i as i64, marker: PhantomData }
    }

    proof fn lemma_from_index(i: int) {
    }

    proof fn lemma_from_index_advance(i: int, d: int) {
        assert(Self::from_index_spec(i).advance_spec(d) =~= Self::from_index_spec(i + d));
    }

    fn from_monotonic(idx: i64) -> Self {
        Week { n: idx, marker: PhantomData }
    }
}

impl<D: StartDay> FromTimestamp for Week<D> {
    open spec fn from_ts_spec(ts: int) -> Self {
        Week { n: week_index_of_day(day_num_of_secs(ts), D::weekday_spec()) as i64,
            marker: PhantomData }
    }

    open spec fn from_ts_ok(ts: int) -> bool {
        true
    }

    fn from_timestamp(ts: i64) -> Self {
        proof {
            D::lemma_weekday_range();
            calendar::lemma_div_bounds(ts as int, SECS_PER_DAY as int);
        }
        let dn = calendar::div_euclid_i64(ts, SECS_PER_DAY) + UNIX_EPOCH_DAY;
        proof {
            calendar::lemma_div_bounds(
                dn as int - (WEEK_BASE_DAY as int + D::weekday_spec()),
                7,
            );
        }
        let wd = D::weekday_num() as i64;
        Week { n: calendar::div_euclid_i64(dn - (WEEK_BASE_DAY + wd), 7), marker: PhantomData }
    }
}

impl<D: StartDay> DateResolution for Week<D> {
    type Params = ();

    open spec fn params_spec(self) -> () {
        ()
    }

    open spec fn start_day_spec(self) -> int {
        week_start_day(self.n as int, D::weekday_spec())
    }

    open spec fn from_date_spec(day_num: int, params: ()) -> Self {
        Week { n: week_index_of_day(day_num, D::weekday_spec()) as i64, marker: PhantomData }
    }

    fn params(&self) -> () {
    }

    fn from_date(date: &Date, params: ()) -> Self {
        proof {
            D::lemma_weekday_range();
            calendar::lemma_wf_date_num_range(*date);
            calendar::lemma_div_bounds(
                date.num() - (WEEK_BASE_DAY as int + D::weekday_spec()),
                7,
            );
        }
        let wd = D::weekday_num() as i64;
        Week { n: calendar::div_euclid_i64(date.day_number - (WEEK_BASE_DAY + wd), 7),
            marker: PhantomData }
    }

    fn start(&self) -> Date {
        proof {
            D::lemma_weekday_range();
        }
        let wd = D::weekday_num() as i64;
        Date::from_day_number(WEEK_BASE_DAY + wd + 7 * self.n)
    }

    proof fn lemma_from_date_covers(day_num: int, params: ()) {
        D::lemma_weekday_range();
        let wd = D::weekday_spec();
        let a = day_num - (WEEK_BASE_DAY as int + wd);
        lemma_fundamental_div_mod(a, 7);
        vstd::arithmetic::div_mod::lemma_mod_bound(a, 7);
        calendar::lemma_div_bounds(a, 7);
    }

    proof fn lemma_start_day(self, d: int) {
    }

    proof fn lemma_from_date_monotone(d1: int, d2: int, params: ()) {
        D::lemma_weekday_range();
        let wd = D::weekday_spec();
        vstd::arithmetic::div_mod::lemma_div_is_ordered(
            d1 - (WEEK_BASE_DAY as int + wd),
            d2 - (WEEK_BASE_DAY as int + wd),
            7,
        );
        calendar::lemma_div_bounds(d1 - (WEEK_BASE_DAY as int + wd), 7);
        calendar::lemma_div_bounds(d2 - (WEEK_BASE_DAY as int + wd), 7);
    }
}

impl<D: StartDay> Week<D> {
    /// The week holding the given date.
    pub fn new(date: Date) -> (r: Week<D>)
        requires
            date.wf(),
        ensures
            r == Week::<D>::from_date_spec(date.num(), ()),
    {
        Week::from_date(&date, ())
    }
}

} // verus!
