//! Timezone-qualified periods: a period value carrying the timezone it is
//! local to and a snapshot of the UTC offset at its start, so that the
//! exact start instant is reconstructed without re-running daylight-saving
//! disambiguation on every read. Resolving a local date's start instant
//! walks the day minute by minute: a wall-clock minute that never happens
//! (spring forward) is skipped, and one that happens twice (fall back) is
//! taken at its earlier UTC instant.

use vstd::prelude::*;

use crate::calendar::{self, Date};
use crate::range::TimeRange;
use crate::{
    secs_of_day_num, DateResolution, Monotonic, SubDateResolution, TimeResolution, SECS_PER_DAY,
};

verus! {

/// Instants handed to the timezone database, in seconds since the Unix
/// epoch, stay within this bound, comfortably inside the range the
/// database's date-time type can hold.
pub const ZONED_TS_BOUND: i64 = 8_205_000_000_000;

/// Day numbers of dates that zoned operations accept: their instants,
/// give or take two days, stay within `ZONED_TS_BOUND`.
pub const ZONED_DAY_MIN: i64 = -92_000_000;

pub const ZONED_DAY_MAX: i64 = 92_000_000;

/// Declares `chrono_tz::Tz`, the timezone-database zone identifier, so
/// that zones can be held and carried through; nothing inside a zone
/// value is relied on except through the wrappers below.
#[verifier::external_type_specification]
#[verifier::external_body]
pub struct ExTz(chrono_tz::Tz);

/// A timezone: UTC itself, a fixed offset from UTC, or a named zone of
/// the timezone database with daylight-saving rules.
pub enum Zone {
    Utc,
    Fixed { offset_secs: i32 },
    Named { tz: chrono_tz::Tz },
}

impl Clone for Zone {
    fn clone(&self) -> (r: Self)
        ensures
            r == *self,
    {
        *self
    }
}

impl Copy for Zone {

}

/// What the civil-to-UTC mapping of a timezone says about one wall-clock
/// instant: it never happens, it happens once, or it happens twice (the
/// offset before the transition first).
#[derive(Clone, Copy, Debug, PartialEq, Eq, Structural)]
pub enum CivilLookup {
    Gap,
    Single { offset_secs: i32 },
    Ambiguous { first_offset: i32, second_offset: i32 },
}

/// Relies on chrono's `TimeZone::offset_from_local_datetime` for
/// `chrono_tz::Tz`: a gap yields no offset; an unambiguous wall-clock
/// time yields the offset of its timespan; an ambiguous one yields the
/// offsets of the two overlapping timespans in order, and local spans
/// overlap exactly when the clock was set back, so the first offset is
/// the larger. Offsets are fixed offsets, strictly within one day.
#[verifier::external_body]
fn tz_civil_lookup(tz: &chrono_tz::Tz, local_secs: i64) -> (r: CivilLookup)
    requires
        -ZONED_TS_BOUND <= local_secs <= ZONED_TS_BOUND,
    ensures
        r matches CivilLookup::Single { offset_secs } ==> -86400 < offset_secs < 86400,
        r matches CivilLookup::Ambiguous { first_offset, second_offset } ==> -86400
            < second_offset < first_offset < 86400,
{
    let naive = chrono::DateTime::from_timestamp(local_secs, 0).unwrap().naive_utc();
    match chrono::TimeZone::offset_from_local_datetime(tz, &naive) {
        chrono::LocalResult::None => CivilLookup::Gap,
        chrono::LocalResult::Single(o) => CivilLookup::Single {
            offset_secs: chrono::Offset::fix(&o).local_minus_utc(),
        },
        chrono::LocalResult::Ambiguous(o1, o2) => CivilLookup::Ambiguous {
            first_offset: chrono::Offset::fix(&o1).local_minus_utc(),
            second_offset: chrono::Offset::fix(&o2).local_minus_utc(),
        },
    }
}

/// Relies on chrono's `TimeZone::offset_from_utc_datetime` for
/// `chrono_tz::Tz`: every UTC instant falls in exactly one timespan,
/// whose fixed offset is strictly within one day.
#[verifier::external_body]
fn tz_offset_at_utc(tz: &chrono_tz::Tz, utc_secs: i64) -> (r: i32)
    requires
        -ZONED_TS_BOUND <= utc_secs <= ZONED_TS_BOUND,
    ensures
        -86400 < r < 86400,
{
    let naive = chrono::DateTime::from_timestamp(utc_secs, 0).unwrap().naive_utc();
    chrono::Offset::fix(&chrono::TimeZone::offset_from_utc_datetime(tz, &naive)).local_minus_utc()
}

impl Zone {
    /// Validity: a fixed offset is strictly within one day.
    pub open spec fn wf(self) -> bool {
        match self {
            Zone::Fixed { offset_secs } => -86400 < offset_secs < 86400,
            _ => true,
        }
    }

    /// Whether the zone's offset never changes.
    pub open spec fn is_fixed(self) -> bool {
        !(self is Named)
    }

    /// The constant offset of a fixed zone.
    pub open spec fn fixed_offset_spec(self) -> int {
        match self {
            Zone::Utc => 0,
            Zone::Fixed { offset_secs } => offset_secs as int,
            Zone::Named { .. } => 0,
        }
    }

    /// The UTC zone.
    pub fn utc() -> (r: Zone)
        ensures
            r == Zone::Utc,
            r.wf(),
    {
        Zone::Utc
    }

    /// A fixed-offset zone, or `None` when the offset is a day or more.
    pub fn fixed(offset_secs: i32) -> (r: Option<Zone>)
        ensures
            r is Some <==> -86400 < offset_secs < 86400,
            r matches Some(z) ==> z == (Zone::Fixed { offset_secs }) && z.wf(),
    {
        if -86400 < offset_secs && offset_secs < 86400 {
            Some(Zone::Fixed { offset_secs })
        } else {
            None
        }
    }

    /// A named zone of the timezone database.
    pub fn named(tz: chrono_tz::Tz) -> (r: Zone)
        ensures
            r == (Zone::Named { tz }),
            r.wf(),
    {
        Zone::Named { tz }
    }

    /// What the zone says about one local wall-clock instant: exact for
    /// fixed zones, and whatever the timezone database answers otherwise.
    pub fn civil_lookup(&self, local_secs: i64) -> (r: CivilLookup)
        requires
            self.wf(),
            -ZONED_TS_BOUND <= local_secs <= ZONED_TS_BOUND,
        ensures
            self.is_fixed() ==> r == (CivilLookup::Single {
                offset_secs: self.fixed_offset_spec() as i32,
            }),
            r matches CivilLookup::Single { offset_secs } ==> -86400 < offset_secs < 86400,
            r matches CivilLookup::Ambiguous { first_offset, second_offset } ==> -86400
                < second_offset < first_offset < 86400,
    {
        match self {
            Zone::Utc => CivilLookup::Single { offset_secs: 0 },
            Zone::Fixed { offset_secs } => CivilLookup::Single { offset_secs: *offset_secs },
            Zone::Named { tz } => tz_civil_lookup(tz, local_secs),
        }
    }

    /// The offset in effect at a UTC instant: exact for fixed zones.
    pub fn offset_at_utc(&self, utc_secs: i64) -> (r: i32)
        requires
            self.wf(),
            -ZONED_TS_BOUND <= utc_secs <= ZONED_TS_BOUND,
        ensures
            self.is_fixed() ==> r as int == self.fixed_offset_spec(),
            -86400 < r < 86400,
    {
        match self {
            Zone::Utc => 0,
            Zone::Fixed { offset_secs } => *offset_secs,
            Zone::Named { tz } => tz_offset_at_utc(tz, utc_secs),
        }
    }
}

/// Whether a lookup outcome's offsets are strictly within one day.
pub open spec fn outcome_bounded(c: CivilLookup) -> bool {
    match c {
        CivilLookup::Gap => true,
        CivilLookup::Single { offset_secs } => -86400 < offset_secs < 86400,
        CivilLookup::Ambiguous { first_offset, second_offset } => -86400 < second_offset
            < first_offset < 86400,
    }
}

/// A resolution out of bounded outcomes carries a bounded offset.
proof fn lemma_resolve_bounded(outcomes: Seq<CivilLookup>)
    requires
        forall|t: int| 0 <= t < outcomes.len() ==> outcome_bounded(#[trigger] outcomes[t]),
    ensures
        resolve_outcomes(outcomes) matches Option::Some(p) ==> -86400 < p.1 < 86400,
    decreases outcomes.len(),
{
    if outcomes.len() > 0 {
        let t = outcomes.drop_first();
        assert forall|k: int| 0 <= k < t.len() implies outcome_bounded(#[trigger] t[k]) by {
            assert(t[k] == outcomes[k + 1]);
        }
        lemma_resolve_bounded(t);
    }
}

/// The first minute of a scanned day that resolves, with its offset: a
/// gap minute is passed over, a single minute answers with its offset,
/// and an ambiguous minute answers with the pre-transition offset, whose
/// UTC instant is the earlier of the two.
pub open spec fn resolve_outcomes(outcomes: Seq<CivilLookup>) -> Option<(int, int)>
    decreases outcomes.len(),
{
    if outcomes.len() == 0 {
        Option::None
    } else {
        match outcomes[0] {
            CivilLookup::Gap => match resolve_outcomes(outcomes.drop_first()) {
                Option::None => Option::None,
                Option::Some((k, off)) => Option::Some((k + 1, off)),
            },
            CivilLookup::Single { offset_secs } => Option::Some((0, offset_secs as int)),
            CivilLookup::Ambiguous { first_offset, second_offset } => Option::Some(
                (0, first_offset as int),
            ),
        }
    }
}

/// The first non-gap outcome decides: if it is the outcome at position
/// `i`, the resolution answers at `i`, taking an ambiguous outcome at its
/// pre-transition offset — the earlier UTC instant of the two readings.
pub proof fn lemma_resolve_picks_first(outcomes: Seq<CivilLookup>, i: int)
    requires
        0 <= i < outcomes.len(),
        forall|t: int| 0 <= t < i ==> outcomes[t] is Gap,
        !(outcomes[i] is Gap),
    ensures
        outcomes[i] matches CivilLookup::Single { offset_secs } ==> resolve_outcomes(outcomes)
            == Option::Some((i, offset_secs as int)),
        outcomes[i] matches CivilLookup::Ambiguous { first_offset, second_offset }
            ==> resolve_outcomes(outcomes) == Option::Some((i, first_offset as int)),
    decreases i,
{
    if i > 0 {
        let t = outcomes.drop_first();
        assert forall|k: int| 0 <= k < i - 1 implies t[k] is Gap by {
            assert(t[k] == outcomes[k + 1]);
        }
        assert(t[i - 1] == outcomes[i]);
        lemma_resolve_picks_first(t, i - 1);
    }
}

/// Walk a day's minute outcomes and answer with the first that resolves.
pub fn resolve_day_start(outcomes: &Vec<CivilLookup>) -> (r: Option<(usize, i32)>)
    ensures
        r is Some <==> resolve_outcomes(outcomes@) is Some,
        r matches Some(p) ==> resolve_outcomes(outcomes@) == Option::Some(
            (p.0 as int, p.1 as int),
        ),
    {
    let mut i: usize = 0;
    while i < outcomes.len()
        invariant
            i <= outcomes@.len(),
            forall|t: int| 0 <= t < i ==> outcomes@[t] is Gap,
        decreases outcomes@.len() - i,
    {
        match outcomes[i] {
            CivilLookup::Gap => {
                i = i + 1;
            },
            CivilLookup::Single { offset_secs } => {
                proof {
                    lemma_resolve_picks_first(outcomes@, i as int);
                }
                return Some((i, offset_secs));
            },
            CivilLookup::Ambiguous { first_offset, second_offset } => {
                proof {
                    lemma_resolve_picks_first(outcomes@, i as int);
                }
                return Some((i, first_offset));
            },
        }
    }
    proof {
        lemma_resolve_all_gaps(outcomes@);
    }
    None
}

/// A day of nothing but gaps never resolves.
proof fn lemma_resolve_all_gaps(outcomes: Seq<CivilLookup>)
    requires
        forall|t: int| 0 <= t < outcomes.len() ==> outcomes[t] is Gap,
    ensures
        resolve_outcomes(outcomes) is None,
    decreases outcomes.len(),
{
    if outcomes.len() > 0 {
        let t = outcomes.drop_first();
        assert forall|k: int| 0 <= k < t.len() implies t[k] is Gap by {
            assert(t[k] == outcomes[k + 1]);
        }
        lemma_resolve_all_gaps(t);
    }
}

/// The offset with which a local date starts in a zone: scanning from
/// local midnight in one-minute steps, the offset of the first wall-clock
/// minute that the zone resolves, an ambiguous minute taken at its
/// pre-transition offset. `None` only if a whole day were one gap, which
/// no real zone produces.
pub fn local_offset_at_start_of_date(date: &Date, zone: &Zone) -> (r: Option<i32>)
    requires
        date.wf(),
        zone.wf(),
        ZONED_DAY_MIN <= date.num() <= ZONED_DAY_MAX,
    ensures
        zone.is_fixed() ==> r == Some(zone.fixed_offset_spec() as i32),
        r matches Some(off) ==> -86400 < off < 86400,
{
    let midnight = (date.day_number - crate::UNIX_EPOCH_DAY) * SECS_PER_DAY;
    let mut outcomes: Vec<CivilLookup> = Vec::new();
    let mut m: u32 = 0;
    while m < 1440
        invariant
            -ZONED_TS_BOUND + 86400 <= midnight <= ZONED_TS_BOUND - 86400,
            zone.wf(),
            m <= 1440,
            outcomes@.len() == m,
            zone.is_fixed() ==> forall|t: int|
                0 <= t < m ==> outcomes@[t] == (CivilLookup::Single {
                    offset_secs: zone.fixed_offset_spec() as i32,
                }),
            forall|t: int| 0 <= t < m ==> outcome_bounded(#[trigger] outcomes@[t]),
        decreases 1440 - m,
    {
        let outcome = zone.civil_lookup(midnight + 60 * m as i64);
        outcomes.push(outcome);
        m = m + 1;
    }
    match resolve_day_start(&outcomes) {
        Some((i, off)) => {
            proof {
                lemma_resolve_bounded(outcomes@);
                if zone.is_fixed() {
                    lemma_resolve_picks_first(outcomes@, 0);
                }
            }
            Some(off)
        },
        None => None,
    }
}

/// A period value local to a timezone, with the UTC offset at its start
/// kept beside it.
pub struct Zoned<R: TimeResolution> {
    pub local_resolution: R,
    pub current_offset: i32,
    pub zone: Zone,
}

impl<R: TimeResolution> Clone for Zoned<R> {
    fn clone(&self) -> (r: Self)
        ensures
            r == *self,
    {
        *self
    }
}

impl<R: TimeResolution> Copy for Zoned<R> {

}

impl<R: TimeResolution> Zoned<R> {
    /// Validity: the snapshot offset is strictly within one day, the zone
    /// is valid, and for a fixed zone the snapshot is the zone's offset.
    pub open spec fn wf(self) -> bool {
        &&& -86400 < self.current_offset < 86400
        &&& self.zone.wf()
        &&& self.zone.is_fixed() ==> self.current_offset as int == self.zone.fixed_offset_spec()
    }
}

impl<R: TimeResolution> Monotonic for Zoned<R> {
    open spec fn index_spec(self) -> int {
        self.local_resolution.index_spec()
    }

    proof fn lemma_index_bounded(self) {
        self.local_resolution.lemma_index_bounded();
    }

    fn to_monotonic(&self) -> i64 {
        self.local_resolution.to_monotonic()
    }

    fn between(&self, other: Self) -> i64 {
        self.local_resolution.between(other.local_resolution)
    }
}

impl<R: TimeResolution> TimeResolution for Zoned<R> {
    open spec fn advance_spec(self, delta: int) -> Self {
        Zoned { local_resolution: self.local_resolution.advance_spec(delta), ..self }
    }

    open spec fn start_secs_spec(self) -> int {
        self.local_resolution.start_secs_spec() - self.current_offset
    }

    open spec fn ts_valid(self) -> bool {
        &&& self.local_resolution.ts_valid()
        &&& i64::MIN <= self.local_resolution.start_secs_spec() - self.current_offset
            <= i64::MAX
    }

    proof fn lemma_advance(self, d1: int, d2: int) {
        self.local_resolution.lemma_advance(d1, d2);
    }

    fn succ_n(&self, n: u64) -> Self {
        Zoned { local_resolution: self.local_resolution.succ_n(n), ..*self }
    }

    fn pred_n(&self, n: u64) -> Self {
        Zoned { local_resolution: self.local_resolution.pred_n(n), ..*self }
    }

    fn succ(&self) -> Self {
        Zoned { local_resolution: self.local_resolution.succ(), ..*self }
    }

    fn pred(&self) -> Self {
        Zoned { local_resolution: self.local_resolution.pred(), ..*self }
    }

    fn start_timestamp(&self) -> i64 {
        self.local_resolution.start_timestamp() - self.current_offset as i64
    }
}

impl<R: TimeResolution> Zoned<R> {
    /// A zoned period from its parts; the general constructor from plain
    /// values.
    pub fn from_local_parts(local_resolution: R, offset_secs: i32, zone: Zone) -> (r: Zoned<R>)
        requires
            zone.wf(),
            -86400 < offset_secs < 86400,
            zone.is_fixed() ==> offset_secs as int == zone.fixed_offset_spec(),
        ensures
            r.wf(),
            r.local_resolution == local_resolution,
            r.current_offset == offset_secs,
            r.zone == zone,
    {
        Zoned { local_resolution, current_offset: offset_secs, zone }
    }

    /// A period read as local time of a fixed zone.
    pub fn from_local(value: R, zone: Zone) -> (r: Zoned<R>)
        requires
            zone.wf(),
            zone.is_fixed(),
        ensures
            r.wf(),
            r.local_resolution == value,
            r.current_offset as int == zone.fixed_offset_spec(),
            r.zone == zone,
    {
        let off = match zone {
            Zone::Utc => 0,
            Zone::Fixed { offset_secs } => offset_secs,
            Zone::Named { .. } => 0,
        };
        Zoned { local_resolution: value, current_offset: off, zone }
    }

    /// The start instant as local wall-clock seconds.
    pub fn local_start_timestamp(&self) -> (r: i64)
        requires
            self.local_resolution.ts_valid(),
        ensures
            r as int == self.local_resolution.start_secs_spec(),
    {
        self.local_resolution.start_timestamp()
    }

    /// The start instant in UTC seconds.
    pub fn utc_start_timestamp(&self) -> (r: i64)
        requires
            self.ts_valid(),
        ensures
            r as int == self.start_secs_spec(),
    {
        self.start_timestamp()
    }

    /// The first local instant after the period, as local wall-clock
    /// seconds.
    pub fn local_end_exclusive(&self) -> (r: i64)
        requires
            self.index_spec() + 1 <= i64::MAX,
            self.local_resolution.advance_spec(1).ts_valid(),
        ensures
            r as int == self.local_resolution.advance_spec(1).start_secs_spec(),
    {
        self.local_resolution.succ().start_timestamp()
    }

    pub fn zone(&self) -> (r: Zone)
        ensures
            r == self.zone,
    {
        self.zone
    }

    pub fn local_resolution(&self) -> (r: R)
        ensures
            r == self.local_resolution,
    {
        self.local_resolution
    }
}

impl<R: SubDateResolution<Params = ()>> Zoned<R> {
    /// The zoned period holding a UTC instant: the zone's offset at that
    /// instant is captured and the local wall-clock reading picks the
    /// period.
    pub fn from_utc_timestamp(utc_secs: i64, zone: Zone) -> (r: Zoned<R>)
        requires
            R::sub_ok(),
            zone.wf(),
            -ZONED_TS_BOUND <= utc_secs <= ZONED_TS_BOUND,
        ensures
            r.wf(),
            r.zone == zone,
            zone.is_fixed() ==> r.current_offset as int == zone.fixed_offset_spec(),
            r.local_resolution == R::from_utc_spec(
                utc_secs + r.current_offset as int,
                (),
            ),
    {
        let off = zone.offset_at_utc(utc_secs);
        let local = utc_secs + off as i64;
        Zoned {
            local_resolution: R::from_utc_timestamp(local, ()),
            current_offset: off,
            zone,
        }
    }

    /// The date on which the wrapped period occurs, by its local reading.
    pub fn occurs_on_date(&self) -> (r: Date)
        requires
            R::sub_ok(),
            self.local_resolution.ts_valid(),
            calendar::DAY_MIN <= self.local_resolution.occurs_day_spec() <= calendar::DAY_MAX,
        ensures
            r.wf(),
            r.num() == self.local_resolution.occurs_day_spec(),
    {
        self.local_resolution.occurs_on_date()
    }

    /// The first period of the kind on a local date of the zone: the
    /// date's start instant is resolved through the day scan, then mapped
    /// back as a zoned period. For a fixed zone this is exactly the
    /// period at the date's local midnight.
    pub fn first_on_day(day: &Date, zone: Zone) -> (r: Zoned<R>)
        requires
            R::sub_ok(),
            day.wf(),
            zone.wf(),
            ZONED_DAY_MIN <= day.num() <= ZONED_DAY_MAX,
        ensures
            r.wf(),
            r.zone == zone,
            zone.is_fixed() ==> r.local_resolution == R::from_utc_spec(
                secs_of_day_num(day.num()),
                (),
            ),
    {
        let midnight = (day.day_number - crate::UNIX_EPOCH_DAY) * SECS_PER_DAY;
        let off = match local_offset_at_start_of_date(day, &zone) {
            Some(off) => off,
            None => 0,
        };
        Zoned::from_utc_timestamp(midnight - off as i64, zone)
    }
}

impl<R: DateResolution<Params = ()>> Zoned<R> {
    /// The zoned period containing a local date: the wrapped period comes
    /// from the date, and the offset snapshot from the day-start scan (or
    /// zero in the impossible case that a whole day is one gap).
    pub fn from_date(date: &Date, zone: Zone) -> (r: Zoned<R>)
        requires
            date.wf(),
            zone.wf(),
            ZONED_DAY_MIN <= date.num() <= ZONED_DAY_MAX,
        ensures
            r.wf(),
            r.zone == zone,
            r.local_resolution == R::from_date_spec(date.num(), ()),
            zone.is_fixed() ==> r.current_offset as int == zone.fixed_offset_spec(),
    {
        let off = match local_offset_at_start_of_date(date, &zone) {
            Some(off) => off,
            None => 0,
        };
        Zoned {
            local_resolution: R::from_date(date, ()),
            current_offset: off,
            zone,
        }
    }

    /// The first day of the wrapped period.
    pub fn start(&self) -> (r: Date)
        requires
            self.local_resolution.ts_valid(),
        ensures
            r.wf(),
            r.num() == self.local_resolution.start_day_spec(),
    {
        self.local_resolution.start()
    }

    /// The last day of the wrapped period.
    pub fn end(&self) -> (r: Date)
        requires
            self.local_resolution.ts_valid(),
            self.local_resolution.index_spec() + 1 <= i64::MAX,
            self.local_resolution.advance_spec(1).ts_valid(),
        ensures
            r.wf(),
            r.num() == self.local_resolution.advance_spec(1).start_day_spec() - 1,
    {
        crate::range::DateResolutionExt::end(&self.local_resolution)
    }
}

impl<P: TimeResolution> TimeRange<Zoned<P>> {
    /// The same range with the timezone qualification stripped.
    pub fn local(&self) -> (r: TimeRange<P>)
        requires
            self.wf(),
        ensures
            r.wf(),
            r.start == self.start.local_resolution,
            r.len == self.len,
    {
        TimeRange::new(self.start.local_resolution, self.len)
    }
}

/// Round trip through a sub-day zoned wrapper: a period built from a
/// grid-aligned local wall-clock instant starts at exactly that instant
/// again, whatever offset and zone ride along.
pub proof fn lemma_zoned_subdate_roundtrip<const N: u32>(
    local_secs: int,
    offset_secs: i32,
    zone: Zone,
)
    requires
        1 <= N <= 1440,
        local_secs % (60 * N as int) == 0,
        -ZONED_TS_BOUND <= local_secs <= ZONED_TS_BOUND,
    ensures
        ({
            let z = Zoned::<crate::minutes::Minutes<N>> {
                local_resolution: crate::minutes::Minutes::<N>::from_utc_spec(local_secs, ()),
                current_offset: offset_secs,
                zone,
            };
            &&& z.local_resolution.start_secs_spec() == local_secs
            &&& z.start_secs_spec() == local_secs - offset_secs
        }),
{
    let p = 60 * N as int;
    vstd::arithmetic::div_mod::lemma_fundamental_div_mod(local_secs, p);
    calendar::lemma_div_bounds(local_secs, p);
    let q = local_secs / p;
    assert(q * p == p * q) by (nonlinear_arith);
}

} // verus!
