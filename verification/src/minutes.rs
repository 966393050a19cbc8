//! Fixed-length sub-day resolutions: periods of `N` minutes each, indexed
//! by whole periods since the Unix epoch.
//!
//! For grid-aligned behaviour within days, `N` should divide an hour with
//! no remainder or be a whole number of hours dividing a day; day-related
//! operations state the divisibility they rely on as preconditions.

use vstd::prelude::*;

use crate::calendar::{self, Date, DAY_MAX, DAY_MIN};
use crate::{
    day_num_of_secs, secs_of_day_num, FromMonotonic, FromTimestamp, Monotonic,
    SubDateResolution, TimeResolution, SECS_PER_DAY, UNIX_EPOCH_DAY,
};
use vstd::arithmetic::div_mod::{
    lemma_fundamental_div_mod, lemma_div_multiples_vanish_fancy,
};

verus! {

#[derive(Clone, Copy, Debug, PartialEq, Eq, PartialOrd, Ord, Hash)]
pub struct Minutes<const N: u32> {
    pub n: i64,
}

pub type Minute = Minutes<1>;

pub type FiveMinute = Minutes<5>;

pub type HalfHour = Minutes<30>;

pub type Hour = Minutes<60>;

/// Seconds spanned by one period of `Minutes<N>`.
pub open spec fn period_secs(n_minutes: u32) -> int {
    60 * n_minutes as int
}

impl<const N: u32> Monotonic for Minutes<N> {
    open spec fn index_spec(self) -> int {
        self.n as int
    }

    proof fn lemma_index_bounded(self) {
    }

    fn to_monotonic(&self) -> i64 {
        self.n
    }

    fn between(&self, other: Self) -> i64 {
        other.n - self.n
    }
}

impl<const N: u32> TimeResolution for Minutes<N> {
    open spec fn advance_spec(self, delta: int) -> Self {
        Minutes { n: (self.n + delta) as i64 }
    }

    open spec fn start_secs_spec(self) -> int {
        self.n as int * period_secs(N)
    }

    open spec fn ts_valid(self) -> bool {
        &&& 1 <= N <= 1440
        &&& i64::MIN <= self.n as int * period_secs(N) <= i64::MAX
    }

    proof fn lemma_advance(self, d1: int, d2: int) {
    }

    fn succ_n(&self, n: u64) -> Self {
        Minutes { n: self.n + n as i64 }
    }

    fn pred_n(&self, n: u64) -> Self {
        Minutes { n: self.n - n as i64 }
    }

    fn succ(&self) -> Self {
        Minutes { n: self.n + 1 }
    }

    fn pred(&self) -> Self {
        Minutes { n: self.n - 1 }
    }

    fn start_timestamp(&self) -> i64 {
        self.n * (60 * N as i64)
    }
}

impl<const N: u32> FromMonotonic for Minutes<N> {
    open spec fn from_index_spec(i: int) -> Self {
        Minutes { n: i as i64 }
    }

    proof fn lemma_from_index(i: int) {
    }

    proof fn lemma_from_index_advance(i: int, d: int) {
    }

    fn from_monotonic(idx: i64) -> Self {
        Minutes { n: idx }
    }
}

impl<const N: u32> FromTimestamp for Minutes<N> {
    open spec fn from_ts_spec(ts: int) -> Self {
        Minutes { n: (ts / period_secs(N)) as i64 }
    }

    open spec fn from_ts_ok(ts: int) -> bool {
        1 <= N <= 1440
    }

    fn from_timestamp(ts: i64) -> Self {
        proof {
            calendar::lemma_div_bounds(ts as int, period_secs(N));
        }
        Minutes { n: calendar::div_euclid_i64(ts, 60 * N as i64) }
    }
}

impl<const N: u32> SubDateResolution for Minutes<N> {
    type Params = ();

    open spec fn params_spec(self) -> () {
        ()
    }

    open spec fn sub_ok() -> bool {
        1 <= N <= 1440
    }

    open spec fn occurs_day_spec(self) -> int {
        day_num_of_secs(self.n as int * period_secs(N))
    }

    open spec fn first_on_day_spec(day_num: int, params: ()) -> Self {
        Minutes { n: (secs_of_day_num(day_num) / period_secs(N)) as i64 }
    }

    open spec fn from_utc_spec(ts: int, params: ()) -> Self {
        Minutes { n: (ts / period_secs(N)) as i64 }
    }

    fn params(&self) -> () {
    }

    fn occurs_on_date(&self) -> Date {
        let ts = self.n * (60 * N as i64);
        proof {
            calendar::lemma_div_bounds(ts as int, SECS_PER_DAY as int);
        }
        let dn = calendar::div_euclid_i64(ts, SECS_PER_DAY) + UNIX_EPOCH_DAY;
        Date::from_day_number(dn)
    }

    fn from_utc_timestamp(ts: i64, params: ()) -> (r: Self) {
        Self::from_timestamp(ts)
    }

    fn first_on_day(day: &Date, params: ()) -> (r: Self) {
        proof {
            calendar::lemma_wf_date_num_range(*day);
        }
        let ts = (day.day_number - UNIX_EPOCH_DAY) * SECS_PER_DAY;
        proof {
            calendar::lemma_div_bounds(ts as int, period_secs(N));
        }
        Minutes { n: calendar::div_euclid_i64(ts, 60 * N as i64) }
    }

    fn last_on_day(day: &Date, params: ()) -> (r: Self) {
        proof {
            calendar::lemma_wf_date_num_range(*day);
        }
        let next = day.succ();
        let first = Self::first_on_day(&next, ());
        proof {
            calendar::lemma_div_bounds(secs_of_day_num(next.num()), period_secs(N));
        }
        first.pred()
    }
}

/// How many `N`-minute periods fit in a day, by truncating division.
pub open spec fn periods_per_day(n_minutes: u32) -> int {
    1440int / n_minutes as int
}

/// A position within a day: which of the day's `N`-minute slots a period
/// occupies, independent of the date.
#[derive(Clone, Copy, Debug, PartialEq, Eq, PartialOrd, Ord, Hash)]
pub struct DaySubdivison<const N: u32> {
    pub index: i64,
}

impl<const N: u32> DaySubdivison<N> {
    /// Validity: the slot index lies within the day.
    pub open spec fn wf(self) -> bool {
        &&& 1 <= N <= 1440
        &&& 0 <= self.index < periods_per_day(N)
    }

    /// The number of slots in a day.
    pub fn periods() -> (r: u32)
        requires
            1 <= N <= 1440,
        ensures
            r == periods_per_day(N),
    {
        proof {
            calendar::lemma_div_bounds(1440, N as int);
        }
        1440 / N
    }

    /// The slot with the given one-based number, if it exists.
    pub fn new(period_no: u64) -> (r: Option<DaySubdivison<N>>)
        requires
            1 <= N <= 1440,
        ensures
            r is Some <==> 1 <= period_no <= periods_per_day(N),
            r matches Some(ds) ==> ds.wf() && ds.index + 1 == period_no,
    {
        proof {
            calendar::lemma_div_bounds(1440, N as int);
        }
        if period_no >= 1 && period_no <= (1440 / N) as u64 {
            Some(DaySubdivison { index: period_no as i64 - 1 })
        } else {
            None
        }
    }

    /// The one-based number of this slot.
    pub fn index(&self) -> (r: u64)
        requires
            self.wf(),
        ensures
            r == self.index + 1,
    {
        self.index as u64 + 1
    }

    /// The period occupying this slot on the given date.
    pub fn on_date(&self, date: Date) -> (r: Minutes<N>)
        requires
            self.wf(),
            date.wf(),
        ensures
            r.index_spec() == self.index + Minutes::<N>::from_ts_spec(
                secs_of_day_num(date.num()),
            ).index_spec(),
    {
        let first = Minutes::<N>::first_on_day(&date, ());
        proof {
            calendar::lemma_wf_date_num_range(date);
            calendar::lemma_div_bounds(secs_of_day_num(date.num()), period_secs(N));
        }
        Minutes { n: self.index + first.n }
    }
}

impl<const N: u32> Minutes<N> {
    /// Which slot of its day this period occupies. Meaningful when `N`
    /// divides the day evenly.
    pub fn relative(&self) -> (r: DaySubdivison<N>)
        requires
            1 <= N <= 1440,
            1440int % (N as int) == 0,
        ensures
            r.wf(),
            r.index == self.n as int % periods_per_day(N),
    {
        proof {
            lemma_periods_positive(N);
            vstd::arithmetic::div_mod::lemma_mod_bound(
                self.n as int,
                periods_per_day(N),
            );
        }
        let p = 1440 / N;
        DaySubdivison { index: calendar::rem_euclid_i64(self.n, p as i64) }
    }
}

/// When the period length divides the day evenly, the first period of a
/// day starts exactly at the day's midnight — every date has its own
/// grid-aligned run of sub-day periods.
pub proof fn lemma_first_on_day_aligned<const N: u32>(day_num: int)
    requires
        1 <= N <= 1440,
        1440int % (N as int) == 0,
        DAY_MIN <= day_num <= DAY_MAX,
    ensures
        Minutes::<N>::first_on_day_spec(day_num, ()).start_secs_spec() == secs_of_day_num(
            day_num,
        ),
{
    let p = period_secs(N);
    let q = 1440int / (N as int);
    let secs = secs_of_day_num(day_num);
    vstd::arithmetic::div_mod::lemma_fundamental_div_mod(1440, N as int);
    calendar::lemma_div_bounds(1440, N as int);
    assert(-200_000_000_000 <= (day_num - UNIX_EPOCH_DAY as int) * q <= 200_000_000_000)
        by (nonlinear_arith)
        requires
            -100_000_000 <= day_num - UNIX_EPOCH_DAY as int <= 100_000_000,
            0 <= q <= 1440,
    ;
    assert(SECS_PER_DAY as int == p * q) by (nonlinear_arith)
        requires
            1440 == (N as int) * q,
            p == 60 * N as int,
    ;
    let days = day_num - UNIX_EPOCH_DAY as int;
    assert(secs == p * (days * q)) by (nonlinear_arith)
        requires
            secs == days * (p * q),
    ;
    assert(secs / p == days * q) by {
        vstd::arithmetic::div_mod::lemma_div_multiples_vanish_fancy(days * q, 0, p);
    }
    assert(Minutes::<N>::first_on_day_spec(day_num, ()).n as int * p == secs) by (nonlinear_arith)
        requires
            Minutes::<N>::first_on_day_spec(day_num, ()).n as int == days * q,
            secs == p * (days * q),
    ;
}

/// When `N` divides the day, the day holds at least one slot.
proof fn lemma_periods_positive(n_minutes: u32)
    requires
        1 <= n_minutes <= 1440,
    ensures
        1 <= periods_per_day(n_minutes) <= 1440,
{
    calendar::lemma_div_bounds(1440, n_minutes as int);
    vstd::arithmetic::div_mod::lemma_div_non_zero(1440, n_minutes as int);
}

} // verus!
