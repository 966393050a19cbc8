//! Discrete, contiguous calendar periods (minute multiples, days, weeks,
//! months, quarters, years and timezone-qualified variants), each kind
//! carrying a bijective, order-preserving mapping between its period values
//! and signed 64-bit indexes; on top of that, a contiguous-range algebra and
//! a partial-coverage cache with gap detection.

use vstd::prelude::*;

pub mod cache;
pub mod calendar;
pub mod day;
pub mod minutes;
pub mod month;
pub mod quarter;
pub mod range;
pub mod text;
pub mod week;
pub mod year;
pub mod zoned;

pub use cache::{missing_pieces, Cache, CacheResponse};
pub use calendar::Date;
pub use day::Day;
pub use minutes::{DaySubdivison, FiveMinute, HalfHour, Hour, Minute, Minutes};
pub use month::{Month, MonthOfYear};
pub use quarter::Quarter;
pub use range::{DateResolutionExt, TimeRange, TimeRangeComparison, TimeRangeIter};
pub use text::{format_erased_resolution, month_name_from_num, month_num_from_name,
    ErasedResolution};
pub use week::{Friday, Monday, Saturday, StartDay, Sunday, Thursday, Tuesday, Wednesday, Week};
pub use year::Year;
pub use zoned::{CivilLookup, Zone, Zoned};

verus! {

/// Seconds per day; period start instants are seconds since the Unix epoch.
pub const SECS_PER_DAY: i64 = 86400;

/// Day number of the Unix epoch date, 1 January 1970.
pub const UNIX_EPOCH_DAY: i64 = 719528;

/// The start instant, in seconds since the Unix epoch, of the day with the
/// given day number.
pub open spec fn secs_of_day_num(n: int) -> int {
    (n - UNIX_EPOCH_DAY as int) * SECS_PER_DAY as int
}

/// The day number of the day holding an instant.
pub open spec fn day_num_of_secs(ts: int) -> int {
    ts / (SECS_PER_DAY as int) + UNIX_EPOCH_DAY as int
}

/// The instant epoch is anchored correctly: the day numbered
/// `UNIX_EPOCH_DAY` is 1 January 1970, the date of instant zero.
pub proof fn lemma_unix_epoch_day()
    ensures
        UNIX_EPOCH_DAY as int == calendar::day_num_of_ymd(1970, 1, 1),
        secs_of_day_num(calendar::day_num_of_ymd(1970, 1, 1)) == 0,
{
    assert(1973int / 4 == 493) by {
        vstd::arithmetic::div_mod::lemma_div_multiples_vanish_fancy(493, 1, 4);
    }
    assert(2069int / 100 == 20) by {
        vstd::arithmetic::div_mod::lemma_div_multiples_vanish_fancy(20, 69, 100);
    }
    assert(2369int / 400 == 5) by {
        vstd::arithmetic::div_mod::lemma_div_multiples_vanish_fancy(5, 369, 400);
    }
}

/// The errors of this crate. Parse errors echo the reason for the refusal;
/// `GotNonMatchingNewData` is declared for a cached value conflicting with
/// newly added data, which the cache as shipped never reports (adding data
/// overwrites unconditionally).
#[derive(Clone, Copy, Debug, PartialEq, Eq, Structural)]
pub enum Error {
    GotNonMatchingNewData,
    ParseInt,
    ParseDate,
    ParseCustom,
    EmptyRange,
    UnexpectedStartDate { required_weekday: u8, actual_weekday: u8 },
    UnexpectedInputLength { required: usize, actual: usize },
}

/// An order-preserving mapping from period values of one kind to signed
/// 64-bit indexes: consecutive periods have consecutive indexes.
pub trait Monotonic: Sized + Copy {
    /// The period's index.
    spec fn index_spec(self) -> int;

    /// Every period's index fits a signed 64-bit integer.
    proof fn lemma_index_bounded(self)
        ensures
            i64::MIN <= self.index_spec() <= i64::MAX,
    ;

    fn to_monotonic(&self) -> (r: i64)
        ensures
            r as int == self.index_spec(),
    ;

    /// How many periods lie from `self` to `other` (negative when `other`
    /// is earlier).
    fn between(&self, other: Self) -> (r: i64)
        requires
            i64::MIN <= other.index_spec() - self.index_spec() <= i64::MAX,
        ensures
            r as int == other.index_spec() - self.index_spec(),
    ;
}

/// A kind whose values can be rebuilt from a raw index alone.
pub trait FromMonotonic: TimeResolution {
    /// The period with the given index.
    spec fn from_index_spec(i: int) -> Self;

    proof fn lemma_from_index(i: int)
        requires
            i64::MIN <= i <= i64::MAX,
        ensures
            Self::from_index_spec(i).index_spec() == i,
    ;

    /// Stepping a rebuilt period lands on the rebuilt stepped index.
    proof fn lemma_from_index_advance(i: int, d: int)
        requires
            i64::MIN <= i <= i64::MAX,
            i64::MIN <= i + d <= i64::MAX,
        ensures
            Self::from_index_spec(i).advance_spec(d) == Self::from_index_spec(i + d),
    ;

    fn from_monotonic(idx: i64) -> (r: Self)
        ensures
            r == Self::from_index_spec(idx as int),
    ;
}

/// A contiguous series of periods: every period has a successor and a
/// predecessor, one index step away, and an exact start instant.
pub trait TimeResolution: Monotonic {
    /// The period `delta` steps later (earlier when negative), meaningful
    /// whenever the resulting index still fits an `i64`.
    spec fn advance_spec(self, delta: int) -> Self;

    /// The start instant in seconds since the Unix epoch.
    spec fn start_secs_spec(self) -> int;

    /// Whether the period is near enough to the epochs for its start
    /// instant (and, for date kinds, start date) to be representable.
    spec fn ts_valid(self) -> bool;

    /// Stepping by zero keeps the value, stepping moves the index with it,
    /// and consecutive steps add up.
    proof fn lemma_advance(self, d1: int, d2: int)
        requires
            i64::MIN <= self.index_spec() + d1 <= i64::MAX,
            i64::MIN <= self.index_spec() + d1 + d2 <= i64::MAX,
        ensures
            self.advance_spec(0) == self,
            self.advance_spec(d1).index_spec() == self.index_spec() + d1,
            self.advance_spec(d1).advance_spec(d2) == self.advance_spec(d1 + d2),
    ;

    fn succ_n(&self, n: u64) -> (r: Self)
        requires
            n <= i64::MAX,
            self.index_spec() + n <= i64::MAX,
        ensures
            r == self.advance_spec(n as int),
    ;

    fn pred_n(&self, n: u64) -> (r: Self)
        requires
            n <= i64::MAX,
            i64::MIN <= self.index_spec() - n,
        ensures
            r == self.advance_spec(-(n as int)),
    ;

    fn succ(&self) -> (r: Self)
        requires
            self.index_spec() + 1 <= i64::MAX,
        ensures
            r == self.advance_spec(1),
    ;

    fn pred(&self) -> (r: Self)
        requires
            i64::MIN <= self.index_spec() - 1,
        ensures
            r == self.advance_spec(-1),
    ;

    fn start_timestamp(&self) -> (r: i64)
        requires
            self.ts_valid(),
        ensures
            r as int == self.start_secs_spec(),
    ;
}

/// A kind that can be rebuilt from an arbitrary instant: the period of
/// that kind holding the instant.
pub trait FromTimestamp: TimeResolution {
    /// The period holding the given instant.
    spec fn from_ts_spec(ts: int) -> Self;

    /// Whether an instant is near enough to the epochs to be mapped.
    spec fn from_ts_ok(ts: int) -> bool;

    fn from_timestamp(ts: i64) -> (r: Self)
        requires
            Self::from_ts_ok(ts as int),
        ensures
            r == Self::from_ts_spec(ts as int),
    ;
}

/// A kind whose periods span one or more whole days: it has a start date
/// and can be built from the date it is to contain.
pub trait DateResolution: TimeResolution {
    /// Configuration needed beside a date to pick the period (nothing for
    /// most kinds; the timezone for zoned kinds).
    type Params;

    spec fn params_spec(self) -> Self::Params;

    /// Day number of the period's first day.
    spec fn start_day_spec(self) -> int;

    /// The period containing the day with the given day number.
    spec fn from_date_spec(day_num: int, params: Self::Params) -> Self;

    fn params(&self) -> (r: Self::Params)
        ensures
            r == self.params_spec(),
    ;

    fn from_date(date: &Date, params: Self::Params) -> (r: Self)
        requires
            date.wf(),
        ensures
            r == Self::from_date_spec(date.num(), params),
            r.params_spec() == params,
    ;

    fn start(&self) -> (r: Date)
        requires
            self.ts_valid(),
        ensures
            r.wf(),
            r.num() == self.start_day_spec(),
    ;

    /// The period built from a date covers that date: its start is no
    /// later than the date and its successor starts strictly later.
    proof fn lemma_from_date_covers(day_num: int, params: Self::Params)
        requires
            calendar::DAY_MIN <= day_num <= calendar::DAY_MAX,
        ensures
            Self::from_date_spec(day_num, params).start_day_spec() <= day_num,
            day_num < Self::from_date_spec(day_num, params).advance_spec(1).start_day_spec(),
    ;

    /// Stepping a period moves its start date forward, and the start
    /// instant is midnight of the start date.
    proof fn lemma_start_day(self, d: int)
        requires
            i64::MIN <= self.index_spec() + d <= i64::MAX,
        ensures
            self.ts_valid() ==> self.start_secs_spec() == secs_of_day_num(self.start_day_spec()),
            self.ts_valid() ==> calendar::DAY_MIN <= self.start_day_spec() <= calendar::DAY_MAX,
            d > 0 ==> self.start_day_spec() < self.advance_spec(d).start_day_spec(),
            self.advance_spec(d).params_spec() == self.params_spec(),
    ;

    /// A later date never falls in an earlier period.
    proof fn lemma_from_date_monotone(d1: int, d2: int, params: Self::Params)
        requires
            calendar::DAY_MIN <= d1 <= d2 <= calendar::DAY_MAX,
        ensures
            Self::from_date_spec(d1, params).index_spec() <= Self::from_date_spec(
                d2,
                params,
            ).index_spec(),
    ;
}

/// A kind whose periods span strictly less than a day: each period falls
/// on one date, and a date has a first and a last period.
pub trait SubDateResolution: TimeResolution {
    /// Configuration needed beside an instant to pick the period.
    type Params;

    spec fn params_spec(self) -> Self::Params;

    /// Whether the kind's static configuration is usable (for minute
    /// kinds: the length is between one minute and one day).
    spec fn sub_ok() -> bool;

    /// Day number of the date the period occurs on.
    spec fn occurs_day_spec(self) -> int;

    /// The first period of this kind on the day with the given day number.
    spec fn first_on_day_spec(day_num: int, params: Self::Params) -> Self;

    /// The period holding the given instant.
    spec fn from_utc_spec(ts: int, params: Self::Params) -> Self;

    fn params(&self) -> (r: Self::Params)
        ensures
            r == self.params_spec(),
    ;

    fn occurs_on_date(&self) -> (r: Date)
        requires
            Self::sub_ok(),
            self.ts_valid(),
            calendar::DAY_MIN <= self.occurs_day_spec() <= calendar::DAY_MAX,
        ensures
            r.wf(),
            r.num() == self.occurs_day_spec(),
    ;

    fn from_utc_timestamp(ts: i64, params: Self::Params) -> (r: Self)
        requires
            Self::sub_ok(),
        ensures
            r == Self::from_utc_spec(ts as int, params),
    ;

    /// The first period of this kind on the given date.
    fn first_on_day(day: &Date, params: Self::Params) -> (r: Self)
        requires
            Self::sub_ok(),
            day.wf(),
        ensures
            r == Self::first_on_day_spec(day.num(), params),
    ;

    /// The last period of this kind on the given date: the predecessor of
    /// the next day's first period.
    fn last_on_day(day: &Date, params: Self::Params) -> (r: Self)
        requires
            Self::sub_ok(),
            day.wf(),
            day.num() < calendar::DAY_MAX,
        ensures
            r == Self::first_on_day_spec(day.num() + 1, params).advance_spec(-1),
    ;
}

/// Every period of the implementing kind spans at least as long as every
/// period of `T`: the static gate for containment and rescaling.
pub trait LongerThanOrEqual<T> {

}

/// Every period of the implementing kind spans strictly longer than every
/// period of `T`.
pub trait LongerThan<T>: LongerThanOrEqual<T> {

}

/// The converse of `LongerThan`.
pub trait ShorterThan<T>: ShorterThanOrEqual<T> {

}

/// The converse of `LongerThanOrEqual`.
pub trait ShorterThanOrEqual<T> {

}

impl<Long, Short> ShorterThanOrEqual<Long> for Short where Long: LongerThan<Short> {

}

impl<Long, Short> ShorterThan<Long> for Short where
    Long: LongerThanOrEqual<Short> + LongerThan<Short>,
 {

}

impl LongerThanOrEqual<Minute> for Minute {

}

impl LongerThanOrEqual<Minute> for FiveMinute {

}

impl LongerThanOrEqual<Minute> for HalfHour {

}

impl LongerThanOrEqual<Minute> for Hour {

}

impl LongerThanOrEqual<Minute> for Day {

}

impl<D: StartDay> LongerThanOrEqual<Minute> for Week<D> {

}

impl LongerThanOrEqual<Minute> for Month {

}

impl LongerThanOrEqual<Minute> for Quarter {

}

impl LongerThanOrEqual<Minute> for Year {

}

impl LongerThan<Minute> for FiveMinute {

}

impl LongerThan<Minute> for HalfHour {

}

impl LongerThan<Minute> for Hour {

}

impl LongerThan<Minute> for Day {

}

impl<D: StartDay> LongerThan<Minute> for Week<D> {

}

impl LongerThan<Minute> for Month {

}

impl LongerThan<Minute> for Quarter {

}

impl LongerThan<Minute> for Year {

}

impl LongerThanOrEqual<FiveMinute> for FiveMinute {

}

impl LongerThanOrEqual<FiveMinute> for HalfHour {

}

impl LongerThanOrEqual<FiveMinute> for Hour {

}

impl LongerThanOrEqual<FiveMinute> for Day {

}

impl<D: StartDay> LongerThanOrEqual<FiveMinute> for Week<D> {

}

impl LongerThanOrEqual<FiveMinute> for Month {

}

impl LongerThanOrEqual<FiveMinute> for Quarter {

}

impl LongerThanOrEqual<FiveMinute> for Year {

}

impl LongerThan<FiveMinute> for HalfHour {

}

impl LongerThan<FiveMinute> for Hour {

}

impl LongerThan<FiveMinute> for Day {

}

impl<D: StartDay> LongerThan<FiveMinute> for Week<D> {

}

impl LongerThan<FiveMinute> for Month {

}

impl LongerThan<FiveMinute> for Quarter {

}

impl LongerThan<FiveMinute> for Year {

}

impl LongerThanOrEqual<HalfHour> for HalfHour {

}

impl LongerThanOrEqual<HalfHour> for Hour {

}

impl LongerThanOrEqual<HalfHour> for Day {

}

impl<D: StartDay> LongerThanOrEqual<HalfHour> for Week<D> {

}

impl LongerThanOrEqual<HalfHour> for Month {

}

impl LongerThanOrEqual<HalfHour> for Quarter {

}

impl LongerThanOrEqual<HalfHour> for Year {

}

impl LongerThan<HalfHour> for Hour {

}

impl LongerThan<HalfHour> for Day {

}

impl<D: StartDay> LongerThan<HalfHour> for Week<D> {

}

impl LongerThan<HalfHour> for Month {

}

impl LongerThan<HalfHour> for Quarter {

}

impl LongerThan<HalfHour> for Year {

}

impl LongerThanOrEqual<Hour> for Hour {

}

impl LongerThanOrEqual<Hour> for Day {

}

impl<D: StartDay> LongerThanOrEqual<Hour> for Week<D> {

}

impl LongerThanOrEqual<Hour> for Month {

}

impl LongerThanOrEqual<Hour> for Quarter {

}

impl LongerThanOrEqual<Hour> for Year {

}

impl LongerThan<Hour> for Day {

}

impl<D: StartDay> LongerThan<Hour> for Week<D> {

}

impl LongerThan<Hour> for Month {

}

impl LongerThan<Hour> for Quarter {

}

impl LongerThan<Hour> for Year {

}

impl LongerThanOrEqual<Day> for Day {

}

impl<D: StartDay> LongerThanOrEqual<Day> for Week<D> {

}

impl LongerThanOrEqual<Day> for Month {

}

impl LongerThanOrEqual<Day> for Quarter {

}

impl LongerThanOrEqual<Day> for Year {

}

impl<D: StartDay> LongerThan<Day> for Week<D> {

}

impl LongerThan<Day> for Month {

}

impl LongerThan<Day> for Quarter {

}

impl LongerThan<Day> for Year {

}

impl<D0: StartDay, D: StartDay> LongerThanOrEqual<Week<D0>> for Week<D> {

}

impl<D0: StartDay> LongerThanOrEqual<Week<D0>> for Quarter {

}

impl<D0: StartDay> LongerThanOrEqual<Week<D0>> for Month {

}

impl<D0: StartDay> LongerThanOrEqual<Week<D0>> for Year {

}

impl<D0: StartDay> LongerThan<Week<D0>> for Month {

}

impl<D0: StartDay> LongerThan<Week<D0>> for Quarter {

}

impl<D0: StartDay> LongerThan<Week<D0>> for Year {

}

impl LongerThanOrEqual<Month> for Month {

}

impl LongerThanOrEqual<Month> for Quarter {

}

impl LongerThanOrEqual<Month> for Year {

}

impl LongerThan<Month> for Quarter {

}

impl LongerThan<Month> for Year {

}

impl LongerThanOrEqual<Quarter> for Quarter {

}

impl LongerThanOrEqual<Quarter> for Year {

}

impl LongerThan<Quarter> for Year {

}

impl LongerThanOrEqual<Year> for Year {

}

impl<R1: TimeResolution, R2: TimeResolution> LongerThan<zoned::Zoned<R2>> for zoned::Zoned<
    R1,
> where R1: LongerThan<R2> {

}

impl<R1: TimeResolution, R2: TimeResolution> LongerThanOrEqual<zoned::Zoned<R2>> for zoned::Zoned<
    R1,
> where R1: LongerThanOrEqual<R2> {

}

/// The epoch of each date-level kind: index 0 of days, months, quarters
/// and years starts on 1 January of year 0; day index -1 is the last of
/// December of the year before; month index 24240 starts the year 2020;
/// month and quarter index -1 start in December and October of the year
/// before year 0.
pub proof fn lemma_epoch_starts()
    ensures
        calendar::day_num_of_ymd(0, 1, 1) == 0,
        <Day as FromMonotonic>::from_index_spec(0).start_day_spec() == 0,
        <Day as FromMonotonic>::from_index_spec(-1).start_day_spec() == -1,
        calendar::day_num_of_ymd(-1, 12, 31) == -1,
        <Month as FromMonotonic>::from_index_spec(0).start_day_spec() == 0,
        <Month as FromMonotonic>::from_index_spec(24240).start_day_spec()
            == calendar::day_num_of_ymd(2020, 1, 1),
        <Month as FromMonotonic>::from_index_spec(-1).start_day_spec()
            == calendar::day_num_of_ymd(-1, 12, 1),
        <Quarter as FromMonotonic>::from_index_spec(0).start_day_spec() == 0,
        <Quarter as FromMonotonic>::from_index_spec(-1).start_day_spec()
            == calendar::day_num_of_ymd(-1, 10, 1),
        <Year as FromMonotonic>::from_index_spec(0).start_day_spec() == 0,
{
    calendar::lemma_leap_count_step(-1);
    calendar::lemma_days_before_year_step(-1);
    assert(calendar::leap_count(0) == 0);
    assert(calendar::days_before_year(0) == 0);
    assert(0int / 12 == 0 && 0int % 12 == 0) by {
        vstd::arithmetic::div_mod::lemma_div_multiples_vanish_fancy(0, 0, 12);
        vstd::arithmetic::div_mod::lemma_fundamental_div_mod(0, 12);
    }
    assert(24240int / 12 == 2020 && 24240int % 12 == 0) by {
        vstd::arithmetic::div_mod::lemma_div_multiples_vanish_fancy(2020, 0, 12);
        vstd::arithmetic::div_mod::lemma_fundamental_div_mod(24240, 12);
    }
    assert((-1int) / 12 == -1 && (-1int) % 12 == 11) by {
        vstd::arithmetic::div_mod::lemma_div_multiples_vanish_fancy(-1, 11, 12);
        vstd::arithmetic::div_mod::lemma_fundamental_div_mod(-1, 12);
    }
    assert(0int / 4 == 0 && 0int % 4 == 0) by {
        vstd::arithmetic::div_mod::lemma_div_multiples_vanish_fancy(0, 0, 4);
        vstd::arithmetic::div_mod::lemma_fundamental_div_mod(0, 4);
    }
    assert((-1int) / 4 == -1 && (-1int) % 4 == 3) by {
        vstd::arithmetic::div_mod::lemma_div_multiples_vanish_fancy(-1, 3, 4);
        vstd::arithmetic::div_mod::lemma_fundamental_div_mod(-1, 4);
    }
}

/// Every date-level kind covers the dates it is built from: for any date,
/// the period built from it starts no later than the date, and the date
/// lies strictly before the successor period's start — that is, on or
/// before the period's last day.
pub proof fn lemma_from_date_covers_date<R: DateResolution>(day_num: int, params: R::Params)
    requires
        calendar::DAY_MIN <= day_num <= calendar::DAY_MAX,
    ensures
        R::from_date_spec(day_num, params).start_day_spec() <= day_num,
        day_num <= R::from_date_spec(day_num, params).advance_spec(1).start_day_spec() - 1,
{
    R::lemma_from_date_covers(day_num, params);
}

/// The predecessor of a period's successor is the period itself, and so is
/// the successor of its predecessor, for every kind.
pub proof fn lemma_succ_pred_identity<P: TimeResolution>(p: P)
    requires
        p.index_spec() + 1 <= i64::MAX,
        i64::MIN <= p.index_spec() - 1,
    ensures
        p.advance_spec(1).advance_spec(-1) == p,
        p.advance_spec(-1).advance_spec(1) == p,
{
    p.lemma_advance(1, -1);
    p.lemma_advance(-1, 1);
    p.lemma_advance(0, 0);
}

/// Stepping `n` periods forward and then `n` back returns to the start,
/// for every kind.
pub proof fn lemma_pred_n_succ_n_identity<P: TimeResolution>(p: P, n: int)
    requires
        i64::MIN <= p.index_spec() + n <= i64::MAX,
        i64::MIN <= p.index_spec() - n <= i64::MAX,
    ensures
        p.advance_spec(n).advance_spec(-n) == p,
        p.advance_spec(-n).advance_spec(n) == p,
{
    p.lemma_advance(n, -n);
    p.lemma_advance(-n, n);
    p.lemma_advance(0, 0);
}

} // verus!
