//! The textual forms of the resolution kinds: parsing of each kind's
//! canonical text, rendering back to it, and formatting of an erased
//! index alongside the kind it belongs to.
//!
//! All grammars work on ASCII bytes: `48` to `57` are the digits, `45` is
//! the hyphen, `32` the space, `58` the colon, `61` and `62` the equals
//! sign and greater-than sign of the period separator, `81` the letter Q.

use vstd::prelude::*;
use vstd::string::{StrSliceExecFns, StringExecFns, StringSliceAdditionalSpecFns};

use crate::calendar::{self, ymd_of_day_num, Date};
use crate::day::Day;
use crate::minutes::{period_secs, Minutes};
use crate::month::Month;
use crate::quarter::Quarter;
use crate::week::{StartDay, Week, WEEK_BASE_DAY};
use crate::year::Year;
use crate::{
    day_num_of_secs, secs_of_day_num, DateResolution, Error, TimeResolution, SECS_PER_DAY,
    UNIX_EPOCH_DAY,
};

verus! {

pub open spec fn is_digit(b: u8) -> bool {
    48 <= b <= 57
}

/// Value of one digit byte.
pub open spec fn digit_val(b: u8) -> int {
    b - 48
}

/// Value of two digit bytes starting at `i`.
pub open spec fn d2(s: Seq<u8>, i: int) -> int {
    10 * digit_val(s[i]) + digit_val(s[i + 1])
}

/// Value of four digit bytes starting at `i`.
pub open spec fn d4(s: Seq<u8>, i: int) -> int {
    1000 * digit_val(s[i]) + 100 * digit_val(s[i + 1]) + 10 * digit_val(s[i + 2]) + digit_val(
        s[i + 3],
    )
}

/// Whether bytes `i` to `i + 10` hold a well-formed date `YYYY-MM-DD`
/// naming a valid calendar date.
pub open spec fn date_ok_at(s: Seq<u8>, i: int) -> bool {
    &&& is_digit(s[i]) && is_digit(s[i + 1]) && is_digit(s[i + 2]) && is_digit(s[i + 3])
    &&& s[i + 4] == 45
    &&& is_digit(s[i + 5]) && is_digit(s[i + 6])
    &&& s[i + 7] == 45
    &&& is_digit(s[i + 8]) && is_digit(s[i + 9])
    &&& calendar::valid_ymd(d4(s, i), d2(s, i + 5), d2(s, i + 8))
}

/// The day number of the date at bytes `i` to `i + 10`.
pub open spec fn date_num_at(s: Seq<u8>, i: int) -> int {
    calendar::day_num_of_ymd(d4(s, i), d2(s, i + 5), d2(s, i + 8))
}

/// Whether bytes `i` to `i + 16` hold a well-formed date-time
/// `YYYY-MM-DD HH:MM`.
pub open spec fn datetime_ok_at(s: Seq<u8>, i: int) -> bool {
    &&& date_ok_at(s, i)
    &&& s[i + 10] == 32
    &&& is_digit(s[i + 11]) && is_digit(s[i + 12])
    &&& s[i + 13] == 58
    &&& is_digit(s[i + 14]) && is_digit(s[i + 15])
    &&& d2(s, i + 11) <= 23
    &&& d2(s, i + 14) <= 59
}

/// The instant of the date-time at bytes `i` to `i + 16`, in seconds
/// since the Unix epoch.
pub open spec fn datetime_secs_at(s: Seq<u8>, i: int) -> int {
    secs_of_day_num(date_num_at(s, i)) + 3600 * d2(s, i + 11) + 60 * d2(s, i + 14)
}

/// Parse the date at a fixed offset in a byte buffer.
fn parse_date_at(b: &Vec<u8>, i: usize) -> (r: Option<Date>)
    requires
        i + 10 <= b@.len(),
        i + 10 <= usize::MAX,
    ensures
        r is Some <==> date_ok_at(b@, i as int),
        r matches Some(d) ==> d.wf() && d.num() == date_num_at(b@, i as int) && d.year == d4(
            b@,
            i as int,
        ) && d.month == d2(b@, i as int + 5) && d.day == d2(b@, i as int + 8),
{
    let all_digits = 48 <= b[i] && b[i] <= 57 && 48 <= b[i + 1] && b[i + 1] <= 57 && 48 <= b[i
        + 2] && b[i + 2] <= 57 && 48 <= b[i + 3] && b[i + 3] <= 57 && 48 <= b[i + 5] && b[i + 5]
        <= 57 && 48 <= b[i + 6] && b[i + 6] <= 57 && 48 <= b[i + 8] && b[i + 8] <= 57 && 48 <= b[i
        + 9] && b[i + 9] <= 57;
    if !(all_digits && b[i + 4] == 45 && b[i + 7] == 45) {
        return None;
    }
    let y = 1000 * (b[i] as i64 - 48) + 100 * (b[i + 1] as i64 - 48) + 10 * (b[i + 2] as i64 - 48)
        + (b[i + 3] as i64 - 48);
    let m = 10 * (b[i + 5] - 48) + (b[i + 6] - 48);
    let d = 10 * (b[i + 8] - 48) + (b[i + 9] - 48);
    Date::from_ymd(y, m, d)
}

/// Parse the date-time at a fixed offset, as the date and the minute of
/// day.
fn parse_datetime_at(b: &Vec<u8>, i: usize) -> (r: Option<(Date, u32)>)
    requires
        i + 16 <= b@.len(),
        i + 16 <= usize::MAX,
    ensures
        r is Some <==> datetime_ok_at(b@, i as int),
        r matches Some(p) ==> {
            &&& p.0.wf()
            &&& p.0.num() == date_num_at(b@, i as int)
            &&& p.1 < 1440
            &&& p.1 == 60 * d2(b@, i as int + 11) + d2(b@, i as int + 14)
        },
{
    let date = match parse_date_at(b, i) {
        Some(d) => d,
        None => {
            return None;
        },
    };
    if !(b[i + 10] == 32 && 48 <= b[i + 11] && b[i + 11] <= 57 && 48 <= b[i + 12] && b[i + 12]
        <= 57 && b[i + 13] == 58 && 48 <= b[i + 14] && b[i + 14] <= 57 && 48 <= b[i + 15] && b[i
        + 15] <= 57) {
        return None;
    }
    let h = 10 * (b[i + 11] as u32 - 48) + (b[i + 12] as u32 - 48);
    let mi = 10 * (b[i + 14] as u32 - 48) + (b[i + 15] as u32 - 48);
    if h > 23 || mi > 59 {
        return None;
    }
    Some((date, 60 * h + mi))
}

/// Powers of ten up to one million, for digit-run bounds.
pub open spec fn pow10(j: int) -> int {
    if j <= 0 {
        1
    } else if j == 1 {
        10
    } else if j == 2 {
        100
    } else if j == 3 {
        1000
    } else if j == 4 {
        10000
    } else if j == 5 {
        100000
    } else {
        1000000
    }
}

/// Value of the digit run in `[from, to)`.
pub open spec fn digit_run_val(s: Seq<u8>, from: int, to: int) -> int
    decreases to - from,
{
    if to <= from {
        0
    } else {
        10 * digit_run_val(s, from, to - 1) + digit_val(s[to - 1])
    }
}

/// Whether every byte in `[from, to)` is a digit.
pub open spec fn digit_run_ok(s: Seq<u8>, from: int, to: int) -> bool {
    forall|t: int| from <= t < to ==> is_digit(#[trigger] s[t])
}

/// Parse the digit run in `[from, to)` as a number, refusing empty runs
/// and runs of more than six digits.
fn parse_digit_run(b: &Vec<u8>, from: usize, to: usize) -> (r: Option<i64>)
    requires
        from <= to <= b@.len(),
    ensures
        r is Some <==> (1 <= to - from <= 6 && digit_run_ok(b@, from as int, to as int)),
        r matches Some(v) ==> v == digit_run_val(b@, from as int, to as int) && 0 <= v < 1000000,
{
    if to - from < 1 || to - from > 6 {
        return None;
    }
    let mut v: i64 = 0;
    let mut k: usize = from;
    while k < to
        invariant
            from <= k <= to <= b@.len(),
            to - from <= 6,
            digit_run_ok(b@, from as int, k as int),
            v == digit_run_val(b@, from as int, k as int),
            0 <= v < pow10(k - from),
        decreases to - k,
    {
        if !(48 <= b[k] && b[k] <= 57) {
            return None;
        }
        proof {
            assert(pow10(k - from) <= 100000);
        }
        v = 10 * v + (b[k] as i64 - 48);
        k = k + 1;
    }
    Some(v)
}

/// The result of parsing a day from its text `YYYY-MM-DD`.
pub open spec fn parse_day_spec(s: Seq<u8>) -> Result<Day, Error> {
    if s.len() == 10 && date_ok_at(s, 0) {
        Result::Ok(Day::from_date_spec(date_num_at(s, 0), ()))
    } else {
        Result::Err(Error::ParseDate)
    }
}

impl Day {
    /// Parse a day from its text `YYYY-MM-DD`.
    pub fn parse_text(s: &str) -> (r: Result<Day, Error>)
        ensures
            r == parse_day_spec(s.spec_bytes()),
    {
        let b = s.as_bytes_vec();
        if b.len() != 10 {
            return Err(Error::ParseDate);
        }
        match parse_date_at(&b, 0) {
            Some(d) => Ok(Day::from_date(&d, ())),
            None => Err(Error::ParseDate),
        }
    }
}

/// The result of parsing a year from its text: a run of one to six
/// digits.
pub open spec fn parse_year_spec(s: Seq<u8>) -> Result<Year, Error> {
    if 1 <= s.len() <= 6 && digit_run_ok(s, 0, s.len() as int) {
        Result::Ok(Year { n: digit_run_val(s, 0, s.len() as int) as i64 })
    } else {
        Result::Err(Error::ParseInt)
    }
}

impl Year {
    /// Parse a year from its text, a run of one to six digits.
    pub fn parse_text(s: &str) -> (r: Result<Year, Error>)
        ensures
            r == parse_year_spec(s.spec_bytes()),
    {
        let b = s.as_bytes_vec();
        match parse_digit_run(&b, 0, b.len()) {
            Some(v) => Ok(Year { n: v }),
            None => Err(Error::ParseInt),
        }
    }
}

/// The month number named by a three-letter month name, or zero.
pub open spec fn month_name_num(b0: u8, b1: u8, b2: u8) -> int {
    if b0 == 74 && b1 == 97 && b2 == 110 {
        1
    } else if b0 == 70 && b1 == 101 && b2 == 98 {
        2
    } else if b0 == 77 && b1 == 97 && b2 == 114 {
        3
    } else if b0 == 65 && b1 == 112 && b2 == 114 {
        4
    } else if b0 == 77 && b1 == 97 && b2 == 121 {
        5
    } else if b0 == 74 && b1 == 117 && b2 == 110 {
        6
    } else if b0 == 74 && b1 == 117 && b2 == 108 {
        7
    } else if b0 == 65 && b1 == 117 && b2 == 103 {
        8
    } else if b0 == 83 && b1 == 101 && b2 == 112 {
        9
    } else if b0 == 79 && b1 == 99 && b2 == 116 {
        10
    } else if b0 == 78 && b1 == 111 && b2 == 118 {
        11
    } else if b0 == 68 && b1 == 101 && b2 == 99 {
        12
    } else {
        0
    }
}

/// The month number of a three-letter month name (`Jan` to `Dec`), or an
/// error for any other bytes.
pub fn month_num_from_name(b0: u8, b1: u8, b2: u8) -> (r: Result<u8, Error>)
    ensures
        month_name_num(b0, b1, b2) > 0 ==> r == Result::<u8, Error>::Ok(
            month_name_num(b0, b1, b2) as u8,
        ),
        month_name_num(b0, b1, b2) == 0 ==> r == Result::<u8, Error>::Err(Error::ParseCustom),
{
    if b0 == 74 && b1 == 97 && b2 == 110 {
        Ok(1)
    } else if b0 == 70 && b1 == 101 && b2 == 98 {
        Ok(2)
    } else if b0 == 77 && b1 == 97 && b2 == 114 {
        Ok(3)
    } else if b0 == 65 && b1 == 112 && b2 == 114 {
        Ok(4)
    } else if b0 == 77 && b1 == 97 && b2 == 121 {
        Ok(5)
    } else if b0 == 74 && b1 == 117 && b2 == 110 {
        Ok(6)
    } else if b0 == 74 && b1 == 117 && b2 == 108 {
        Ok(7)
    } else if b0 == 65 && b1 == 117 && b2 == 103 {
        Ok(8)
    } else if b0 == 83 && b1 == 101 && b2 == 112 {
        Ok(9)
    } else if b0 == 79 && b1 == 99 && b2 == 116 {
        Ok(10)
    } else if b0 == 78 && b1 == 111 && b2 == 118 {
        Ok(11)
    } else if b0 == 68 && b1 == 101 && b2 == 99 {
        Ok(12)
    } else {
        Err(Error::ParseCustom)
    }
}

/// The result of parsing a month from its text `Mon-YYYY`: a three-letter
/// month name, a hyphen, and one to six year digits.
pub open spec fn parse_month_spec(s: Seq<u8>) -> Result<Month, Error> {
    if s.len() < 4 || month_name_num(s[0], s[1], s[2]) == 0 {
        Result::Err(Error::ParseCustom)
    } else if s[3] != 45 {
        Result::Err(Error::ParseCustom)
    } else if 5 <= s.len() <= 10 && digit_run_ok(s, 4, s.len() as int) {
        Result::Ok(
            Month {
                n: (12 * digit_run_val(s, 4, s.len() as int) + month_name_num(s[0], s[1], s[2])
                    - 1) as i64,
            },
        )
    } else {
        Result::Err(Error::ParseInt)
    }
}

impl Month {
    /// Parse a month from its text `Mon-YYYY`.
    pub fn parse_text(s: &str) -> (r: Result<Month, Error>)
        ensures
            r == parse_month_spec(s.spec_bytes()),
    {
        let b = s.as_bytes_vec();
        if b.len() < 4 {
            return Err(Error::ParseCustom);
        }
        let m = match month_num_from_name(b[0], b[1], b[2]) {
            Ok(m) => m,
            Err(e) => {
                return Err(e);
            },
        };
        if b[3] != 45 {
            return Err(Error::ParseCustom);
        }
        match parse_digit_run(&b, 4, b.len()) {
            Some(y) => Ok(Month { n: 12 * y + (m as i64 - 1) }),
            None => Err(Error::ParseInt),
        }
    }
}

/// The result of parsing a quarter from its text, either a plain date
/// `YYYY-MM-DD` (giving the quarter containing it) or `QN-YYYY`.
pub open spec fn parse_quarter_spec(s: Seq<u8>) -> Result<Quarter, Error> {
    if s.len() == 10 && date_ok_at(s, 0) {
        Result::Ok(Quarter::from_date_spec(date_num_at(s, 0), ()))
    } else if s.len() >= 4 && s[0] == 81 && is_digit(s[1]) && s[2] == 45 {
        if !(1 <= digit_val(s[1]) <= 4) {
            Result::Err(Error::ParseCustom)
        } else if s.len() <= 9 && digit_run_ok(s, 3, s.len() as int) {
            Result::Ok(
                Quarter { n: (4 * digit_run_val(s, 3, s.len() as int) + digit_val(s[1]) - 1) as i64 },
            )
        } else {
            Result::Err(Error::ParseInt)
        }
    } else {
        Result::Err(Error::ParseCustom)
    }
}

impl Quarter {
    /// Parse a quarter from its text, `YYYY-MM-DD` or `QN-YYYY`.
    pub fn parse_text(s: &str) -> (r: Result<Quarter, Error>)
        ensures
            r == parse_quarter_spec(s.spec_bytes()),
    {
        let b = s.as_bytes_vec();
        if b.len() == 10 {
            if let Some(d) = parse_date_at(&b, 0) {
                return Ok(Quarter::from_date(&d, ()));
            }
        }
        if b.len() >= 4 && b[0] == 81 && 48 <= b[1] && b[1] <= 57 && b[2] == 45 {
            let q = b[1] - 48;
            if !(1 <= q && q <= 4) {
                return Err(Error::ParseCustom);
            }
            if b.len() > 9 {
                return Err(Error::ParseInt);
            }
            match parse_digit_run(&b, 3, b.len()) {
                Some(y) => Ok(Quarter { n: 4 * y + (q as i64 - 1) }),
                None => Err(Error::ParseInt),
            }
        } else {
            Err(Error::ParseCustom)
        }
    }
}

/// The result of parsing a week from its text `Week starting YYYY-MM-DD`:
/// the text must be exactly 24 bytes with a valid date in its last ten,
/// and the date's weekday must be the kind's start weekday.
pub open spec fn parse_week_spec<D: StartDay>(s: Seq<u8>) -> Result<Week<D>, Error> {
    if s.len() != 24 {
        Result::Err(
            Error::UnexpectedInputLength { required: 24 as usize, actual: s.len() as usize },
        )
    } else if !date_ok_at(s, 14) {
        Result::Err(Error::ParseDate)
    } else if calendar::weekday_of_day_num(date_num_at(s, 14)) != D::weekday_spec() {
        Result::Err(
            Error::UnexpectedStartDate {
                required_weekday: D::weekday_spec() as u8,
                actual_weekday: calendar::weekday_of_day_num(date_num_at(s, 14)) as u8,
            },
        )
    } else {
        Result::Ok(Week::<D>::from_date_spec(date_num_at(s, 14), ()))
    }
}

impl<D: StartDay> Week<D> {
    /// Parse a week from its text `Week starting YYYY-MM-DD`, refusing a
    /// date that does not fall on this kind's start weekday.
    pub fn parse_text(s: &str) -> (r: Result<Week<D>, Error>)
        ensures
            r == parse_week_spec::<D>(s.spec_bytes()),
    {
        let b = s.as_bytes_vec();
        if b.len() != 24 {
            return Err(Error::UnexpectedInputLength { required: 24, actual: b.len() });
        }
        let date = match parse_date_at(&b, 14) {
            Some(d) => d,
            None => {
                return Err(Error::ParseDate);
            },
        };
        proof {
            D::lemma_weekday_range();
        }
        let wd = date.weekday();
        let required = D::weekday_num();
        if wd != required {
            return Err(
                Error::UnexpectedStartDate { required_weekday: required, actual_weekday: wd },
            );
        }
        Ok(Week::from_date(&date, ()))
    }
}

/// The result of parsing a sub-day period of `n` minutes: for one-minute
/// periods a single date-time, else a start and end date-time joined by
/// ` => `, where the start is aligned to the period grid and the end is
/// exactly one period later.
pub open spec fn parse_minutes_spec<const N: u32>(s: Seq<u8>) -> Result<Minutes<N>, Error> {
    if N == 1 {
        if s.len() == 16 && datetime_ok_at(s, 0) {
            Result::Ok(Minutes { n: (datetime_secs_at(s, 0) / 60) as i64 })
        } else {
            Result::Err(Error::ParseDate)
        }
    } else {
        if s.len() != 36 {
            Result::Err(Error::ParseCustom)
        } else if !datetime_ok_at(s, 0) {
            Result::Err(Error::ParseDate)
        } else if !(s[16] == 32 && s[17] == 61 && s[18] == 62 && s[19] == 32) {
            Result::Err(Error::ParseCustom)
        } else if (60 * d2(s, 11) + d2(s, 14)) % (N as int) != 0 {
            Result::Err(Error::ParseCustom)
        } else if !datetime_ok_at(s, 20) {
            Result::Err(Error::ParseDate)
        } else if datetime_secs_at(s, 20) != datetime_secs_at(s, 0) + 60 * (N as int) {
            Result::Err(Error::ParseCustom)
        } else {
            Result::Ok(Minutes { n: (datetime_secs_at(s, 0) / period_secs(N)) as i64 })
        }
    }
}

impl<const N: u32> Minutes<N> {
    /// Parse a period from its text: a date-time for one-minute periods,
    /// else a start and end date-time joined by ` => `.
    pub fn parse_text(s: &str) -> (r: Result<Minutes<N>, Error>)
        requires
            1 <= N <= 1440,
        ensures
            r == parse_minutes_spec::<N>(s.spec_bytes()),
    {
        let b = s.as_bytes_vec();
        if N == 1 {
            if b.len() != 16 {
                return Err(Error::ParseDate);
            }
            match parse_datetime_at(&b, 0) {
                Some((date, minute)) => {
                    proof {
                        calendar::lemma_wf_date_num_range(date);
                    }
                    let secs = (date.day_number - UNIX_EPOCH_DAY) * SECS_PER_DAY + 60 * (
                    minute as i64);
                    proof {
                        calendar::lemma_div_bounds(secs as int, 60);
                    }
                    Ok(Minutes { n: calendar::div_euclid_i64(secs, 60) })
                },
                None => Err(Error::ParseDate),
            }
        } else {
            if b.len() != 36 {
                return Err(Error::ParseCustom);
            }
            let (date, minute) = match parse_datetime_at(&b, 0) {
                Some(p) => p,
                None => {
                    return Err(Error::ParseDate);
                },
            };
            if !(b[16] == 32 && b[17] == 61 && b[18] == 62 && b[19] == 32) {
                return Err(Error::ParseCustom);
            }
            if minute % N != 0 {
                return Err(Error::ParseCustom);
            }
            let (date2, minute2) = match parse_datetime_at(&b, 20) {
                Some(p) => p,
                None => {
                    return Err(Error::ParseDate);
                },
            };
            proof {
                calendar::lemma_wf_date_num_range(date);
                calendar::lemma_wf_date_num_range(date2);
            }
            let secs = (date.day_number - UNIX_EPOCH_DAY) * SECS_PER_DAY + 60 * (minute as i64);
            let secs2 = (date2.day_number - UNIX_EPOCH_DAY) * SECS_PER_DAY + 60 * (
            minute2 as i64);
            if secs2 != secs + 60 * (N as i64) {
                return Err(Error::ParseCustom);
            }
            proof {
                calendar::lemma_div_bounds(secs as int, period_secs(N));
            }
            Ok(Minutes { n: calendar::div_euclid_i64(secs, 60 * N as i64) })
        }
    }
}

/// The decimal digit characters.
pub open spec fn digit_char(v: int) -> char {
    if v == 0 {
        '0'
    } else if v == 1 {
        '1'
    } else if v == 2 {
        '2'
    } else if v == 3 {
        '3'
    } else if v == 4 {
        '4'
    } else if v == 5 {
        '5'
    } else if v == 6 {
        '6'
    } else if v == 7 {
        '7'
    } else if v == 8 {
        '8'
    } else {
        '9'
    }
}

/// The decimal digits of `v`, zero-padded on the left to at least `w`
/// characters.
pub open spec fn dec_min(v: int, w: int) -> Seq<char>
    decreases
            (if v > 9 {
                v
            } else {
                0int
            }),
            (if w > 1 {
                w
            } else {
                0int
            }),
{
    if v <= 9 && w <= 1 {
        seq![digit_char(v)]
    } else {
        dec_min(
            v / 10,
            if w > 1 {
                w - 1
            } else {
                0
            },
        ) + seq![digit_char(v % 10)]
    }
}

/// A signed number's text: a minus sign for negatives, then the digits
/// zero-padded to at least `w`.
pub open spec fn int_text(v: int, w: int) -> Seq<char> {
    if v < 0 {
        seq!['-'] + dec_min(-v, w)
    } else {
        dec_min(v, w)
    }
}

/// Append one digit character.
fn push_digit(s: &mut String, d: u8)
    requires
        d <= 9,
    ensures
        final (s)@ == old(s)@ + seq![digit_char(d as int)],
{
    proof {
        reveal_strlit("0");
        reveal_strlit("1");
        reveal_strlit("2");
        reveal_strlit("3");
        reveal_strlit("4");
        reveal_strlit("5");
        reveal_strlit("6");
        reveal_strlit("7");
        reveal_strlit("8");
        reveal_strlit("9");
    }
    match d {
        0 => s.append("0"),
        1 => s.append("1"),
        2 => s.append("2"),
        3 => s.append("3"),
        4 => s.append("4"),
        5 => s.append("5"),
        6 => s.append("6"),
        7 => s.append("7"),
        8 => s.append("8"),
        _ => s.append("9"),
    }
    proof {
        assert(final (s)@ =~= old(s)@ + seq![digit_char(d as int)]);
    }
}

/// Append an unsigned number, zero-padded to at least `w` digits.
fn push_uint(s: &mut String, v: u64, w: u32)
    ensures
        final (s)@ == old(s)@ + dec_min(v as int, w as int),
    decreases v, w,
{
    if v <= 9 && w <= 1 {
        push_digit(s, v as u8);
    } else {
        let w2 = if w > 1 {
            w - 1
        } else {
            0
        };
        push_uint(s, v / 10, w2);
        push_digit(s, (v % 10) as u8);
        proof {
            assert(final (s)@ =~= old(s)@ + dec_min(v as int, w as int));
        }
    }
}

/// Append a signed number, its digits zero-padded to at least `w`.
fn push_int(s: &mut String, v: i64, w: u32)
    requires
        v > i64::MIN,
    ensures
        final (s)@ == old(s)@ + int_text(v as int, w as int),
{
    proof {
        reveal_strlit("-");
    }
    if v < 0 {
        s.append("-");
        push_uint(s, (-v) as u64, w);
        proof {
            assert(final (s)@ =~= old(s)@ + int_text(v as int, w as int));
        }
    } else {
        push_uint(s, v as u64, w);
    }
}

/// A calendar date's text `YYYY-MM-DD` (years are padded to four digits,
/// negative years carry a sign).
pub open spec fn date_text(y: int, m: int, d: int) -> Seq<char> {
    int_text(y, 4) + seq!['-'] + dec_min(m, 2) + seq!['-'] + dec_min(d, 2)
}

/// The text of the date with the given day number.
pub open spec fn day_text(n: int) -> Seq<char> {
    date_text(ymd_of_day_num(n).0, ymd_of_day_num(n).1, ymd_of_day_num(n).2)
}

/// Append a date's text.
fn push_date(s: &mut String, d: &Date)
    requires
        d.wf(),
    ensures
        final (s)@ == old(s)@ + day_text(d.num()),
{
    proof {
        reveal_strlit("-");
        calendar::lemma_ymd_of_day_num(d.year as int, d.month as int, d.day as int);
    }
    push_int(s, d.year, 4);
    s.append("-");
    push_uint(s, d.month as u64, 2);
    s.append("-");
    push_uint(s, d.day as u64, 2);
    proof {
        assert(final (s)@ =~= old(s)@ + day_text(d.num()));
    }
}

/// Whether an instant lies within the supported calendar days.
pub open spec fn ts_in_calendar(ts: int) -> bool {
    secs_of_day_num(calendar::DAY_MIN as int) <= ts < secs_of_day_num(calendar::DAY_MAX as int + 1)
}

/// A date-time's text `YYYY-MM-DD HH:MM`.
pub open spec fn datetime_text(ts: int) -> Seq<char> {
    day_text(day_num_of_secs(ts)) + seq![' '] + dec_min((ts % 86400) / 3600, 2) + seq![':']
        + dec_min(((ts % 86400) / 60) % 60, 2)
}

/// Append a date-time's text.
fn push_datetime(s: &mut String, ts: i64)
    requires
        ts_in_calendar(ts as int),
    ensures
        final (s)@ == old(s)@ + datetime_text(ts as int),
{
    proof {
        reveal_strlit(" ");
        reveal_strlit(":");
        calendar::lemma_div_bounds(ts as int, SECS_PER_DAY as int);
        vstd::arithmetic::div_mod::lemma_mod_bound(ts as int, SECS_PER_DAY as int);
    }
    let day = calendar::div_euclid_i64(ts, SECS_PER_DAY) + UNIX_EPOCH_DAY;
    proof {
        lemma_day_of_ts_in_range(ts as int);
    }
    let d = Date::from_day_number(day);
    let sod = calendar::rem_euclid_i64(ts, SECS_PER_DAY);
    proof {
        calendar::lemma_div_bounds(sod as int, 3600);
        vstd::arithmetic::div_mod::lemma_mod_bound(sod as int / 60, 60);
        calendar::lemma_div_bounds(sod as int, 60);
        vstd::arithmetic::div_mod::lemma_div_is_ordered(sod as int, 86399, 3600);
        assert(86399int / 3600 == 23) by {
            vstd::arithmetic::div_mod::lemma_div_multiples_vanish_fancy(23, 3599, 3600);
        }
    }
    let h = calendar::div_euclid_i64(sod, 3600);
    let mi = calendar::rem_euclid_i64(calendar::div_euclid_i64(sod, 60), 60);
    push_date(s, &d);
    s.append(" ");
    push_uint(s, h as u64, 2);
    s.append(":");
    push_uint(s, mi as u64, 2);
    proof {
        assert(final (s)@ =~= old(s)@ + datetime_text(ts as int));
    }
}

/// An instant within the calendar falls on a supported day.
proof fn lemma_day_of_ts_in_range(ts: int)
    requires
        ts_in_calendar(ts),
    ensures
        calendar::DAY_MIN <= day_num_of_secs(ts) <= calendar::DAY_MAX,
{
    let e = UNIX_EPOCH_DAY as int;
    vstd::arithmetic::div_mod::lemma_div_is_ordered(
        (calendar::DAY_MIN - e) * 86400,
        ts,
        86400,
    );
    vstd::arithmetic::div_mod::lemma_div_is_ordered(
        ts,
        (calendar::DAY_MAX + 1 - e) * 86400 - 1,
        86400,
    );
    assert(((calendar::DAY_MIN - e) * 86400) / 86400 == calendar::DAY_MIN - e) by {
        vstd::arithmetic::div_mod::lemma_div_multiples_vanish_fancy(
            calendar::DAY_MIN - e,
            0,
            86400,
        );
    }
    assert(((calendar::DAY_MAX + 1 - e) * 86400 - 1) / 86400 == calendar::DAY_MAX - e) by {
        vstd::arithmetic::div_mod::lemma_div_multiples_vanish_fancy(
            calendar::DAY_MAX - e,
            86399,
            86400,
        );
        assert((calendar::DAY_MAX + 1 - e) * 86400 - 1 == 86400 * (calendar::DAY_MAX - e)
            + 86399) by (nonlinear_arith);
    }
}

/// The text of a month name, `Jan` to `Dec`.
pub open spec fn month_name_text(m: int) -> Seq<char> {
    if m == 1 {
        "Jan"@
    } else if m == 2 {
        "Feb"@
    } else if m == 3 {
        "Mar"@
    } else if m == 4 {
        "Apr"@
    } else if m == 5 {
        "May"@
    } else if m == 6 {
        "Jun"@
    } else if m == 7 {
        "Jul"@
    } else if m == 8 {
        "Aug"@
    } else if m == 9 {
        "Sep"@
    } else if m == 10 {
        "Oct"@
    } else if m == 11 {
        "Nov"@
    } else {
        "Dec"@
    }
}

/// The three-letter name of a month number, 1 to 12.
pub fn month_name_from_num(m: u8) -> (r: &'static str)
    requires
        1 <= m <= 12,
    ensures
        r@ == month_name_text(m as int),
{
    match m {
        1 => "Jan",
        2 => "Feb",
        3 => "Mar",
        4 => "Apr",
        5 => "May",
        6 => "Jun",
        7 => "Jul",
        8 => "Aug",
        9 => "Sep",
        10 => "Oct",
        11 => "Nov",
        _ => "Dec",
    }
}

/// A month's text `Mon-YYYY`.
pub open spec fn month_text(n: int) -> Seq<char> {
    month_name_text(n % 12 + 1) + seq!['-'] + int_text(n / 12, 1)
}

impl Month {
    /// The month's text `Mon-YYYY`.
    pub fn to_text(&self) -> (r: String)
        ensures
            r@ == month_text(self.n as int),
    {
        proof {
            reveal_strlit("-");
            vstd::arithmetic::div_mod::lemma_mod_bound(self.n as int, 12);
            calendar::lemma_div_bounds(self.n as int, 12);
            lemma_div12_bound(self.n as int);
        }
        let mut s = String::new();
        let m = calendar::rem_euclid_i64(self.n, 12) as u8 + 1;
        s.append(month_name_from_num(m));
        s.append("-");
        push_int(&mut s, calendar::div_euclid_i64(self.n, 12), 1);
        proof {
            assert(s@ =~= month_text(self.n as int));
        }
        s
    }
}

/// The quotient of an `i64` by twelve is well above the smallest `i64`.
proof fn lemma_div12_bound(n: int)
    requires
        i64::MIN <= n <= i64::MAX,
    ensures
        n / 12 > i64::MIN,
{
    calendar::lemma_div_bounds(n, 12);
    if n < 0 {
        vstd::arithmetic::div_mod::lemma_div_is_ordered(i64::MIN as int, n, 12);
        assert(i64::MIN as int / 12 == -768614336404564651) by {
            vstd::arithmetic::div_mod::lemma_div_multiples_vanish_fancy(
                -768614336404564651,
                4,
                12,
            );
        }
    }
}

/// A quarter's text `QN-YYYY`.
pub open spec fn quarter_text(n: int) -> Seq<char> {
    seq!['Q'] + dec_min(n % 4 + 1, 1) + seq!['-'] + int_text(n / 4, 1)
}

impl Quarter {
    /// The quarter's text `QN-YYYY`.
    pub fn to_text(&self) -> (r: String)
        ensures
            r@ == quarter_text(self.n as int),
    {
        proof {
            reveal_strlit("Q");
            reveal_strlit("-");
            vstd::arithmetic::div_mod::lemma_mod_bound(self.n as int, 4);
            calendar::lemma_div_bounds(self.n as int, 4);
            lemma_div4_bound(self.n as int);
        }
        let mut s = String::new();
        s.append("Q");
        let q = calendar::rem_euclid_i64(self.n, 4) as u64 + 1;
        push_uint(&mut s, q, 1);
        s.append("-");
        push_int(&mut s, calendar::div_euclid_i64(self.n, 4), 1);
        proof {
            assert(s@ =~= quarter_text(self.n as int));
        }
        s
    }
}

/// The quotient of an `i64` by four is well above the smallest `i64`.
proof fn lemma_div4_bound(n: int)
    requires
        i64::MIN <= n <= i64::MAX,
    ensures
        n / 4 > i64::MIN,
{
    calendar::lemma_div_bounds(n, 4);
    if n < 0 {
        vstd::arithmetic::div_mod::lemma_div_is_ordered(i64::MIN as int, n, 4);
        assert(i64::MIN as int / 4 == -2305843009213693952) by {
            vstd::arithmetic::div_mod::lemma_div_multiples_vanish_fancy(
                -2305843009213693952,
                0,
                4,
            );
        }
    }
}

/// A year's text: its number.
pub open spec fn year_text(n: int) -> Seq<char> {
    int_text(n, 1)
}

impl Year {
    /// The year's text: its number.
    pub fn to_text(&self) -> (r: String)
        requires
            self.n > i64::MIN,
        ensures
            r@ == year_text(self.n as int),
    {
        let mut s = String::new();
        push_int(&mut s, self.n, 1);
        proof {
            assert(s@ =~= year_text(self.n as int));
        }
        s
    }
}

impl Day {
    /// The day's text `YYYY-MM-DD`.
    pub fn to_text(&self) -> (r: String)
        requires
            self.ts_valid(),
        ensures
            r@ == day_text(self.n as int),
    {
        let d = self.start();
        let mut s = String::new();
        push_date(&mut s, &d);
        proof {
            assert(s@ =~= day_text(self.n as int));
        }
        s
    }
}

/// A week's text `Week starting YYYY-MM-DD`, for the week of the given
/// index among weeks starting on the given weekday.
pub open spec fn week_text(n: int, wd: int) -> Seq<char> {
    "Week starting "@ + day_text(crate::week::week_start_day(n, wd))
}

impl<D: StartDay> Week<D> {
    /// The week's text `Week starting YYYY-MM-DD`.
    pub fn to_text(&self) -> (r: String)
        requires
            self.ts_valid(),
        ensures
            r@ == week_text(self.n as int, D::weekday_spec()),
    {
        let d = self.start();
        let mut s = String::new();
        s.append("Week starting ");
        push_date(&mut s, &d);
        proof {
            assert(s@ =~= week_text(self.n as int, D::weekday_spec()));
        }
        s
    }
}

/// A sub-day period's text: the start date-time alone for one-minute
/// periods, else the start and exclusive end date-times joined by ` => `.
pub open spec fn minutes_text(n: int, len: u32) -> Seq<char> {
    if len == 1 {
        datetime_text(n * 60)
    } else {
        datetime_text(n * period_secs(len)) + " => "@ + datetime_text((n + 1) * period_secs(len))
    }
}

impl<const N: u32> Minutes<N> {
    /// The period's text: its start date-time, and for lengths above one
    /// minute also its exclusive end date-time.
    pub fn to_text(&self) -> (r: String)
        requires
            1 <= N <= 1440,
            ts_in_calendar(self.n as int * period_secs(N)),
            ts_in_calendar((self.n as int + 1) * period_secs(N)),
        ensures
            r@ == minutes_text(self.n as int, N),
    {
        proof {
            lemma_minutes_ts_bounds(self.n as int, N);
        }
        let mut s = String::new();
        let start = self.n * (60 * N as i64);
        if N == 1 {
            push_datetime(&mut s, start);
        } else {
            let end = (self.n + 1) * (60 * N as i64);
            push_datetime(&mut s, start);
            s.append(" => ");
            push_datetime(&mut s, end);
        }
        proof {
            assert(s@ =~= minutes_text(self.n as int, N));
        }
        s
    }
}

/// Calendar-range instants of a period's bounds keep every intermediate
/// product within `i64`.
proof fn lemma_minutes_ts_bounds(n: int, len: u32)
    requires
        1 <= len <= 1440,
        ts_in_calendar(n * period_secs(len)),
        ts_in_calendar((n + 1) * period_secs(len)),
    ensures
        i64::MIN <= n * period_secs(len) <= i64::MAX,
        i64::MIN <= (n + 1) * period_secs(len) <= i64::MAX,
        i64::MIN <= n + 1 <= i64::MAX,
{
    assert(n + 1 <= i64::MAX) by (nonlinear_arith)
        requires
            1 <= period_secs(len),
            (n + 1) * period_secs(len) < secs_of_day_num(calendar::DAY_MAX as int + 1),
            secs_of_day_num(calendar::DAY_MAX as int + 1) < i64::MAX,
    ;
    assert(i64::MIN <= n + 1) by (nonlinear_arith)
        requires
            1 <= period_secs(len),
            secs_of_day_num(calendar::DAY_MIN as int) <= (n + 1) * period_secs(len),
            i64::MIN < secs_of_day_num(calendar::DAY_MIN as int),
    ;
}

/// A kind tag for an index whose resolution type has been erased: the
/// kinds this crate knows, or a caller-defined tag.
#[derive(Clone, Copy, Debug, PartialEq, Eq, Structural)]
pub enum ErasedResolution {
    Minute,
    FiveMinute,
    HalfHour,
    Hour,
    Day,
    Week { start_weekday: u8 },
    Month,
    Quarter,
    Year,
    Other { tag: u64 },
}

/// Whether an erased index is within the formattable span of its kind.
pub open spec fn erased_ok(kind: ErasedResolution, val: int) -> bool {
    match kind {
        ErasedResolution::Minute => ts_in_calendar(val * 60) && ts_in_calendar((val + 1) * 60),
        ErasedResolution::FiveMinute => ts_in_calendar(val * 300) && ts_in_calendar(
            (val + 1) * 300,
        ),
        ErasedResolution::HalfHour => ts_in_calendar(val * 1800) && ts_in_calendar(
            (val + 1) * 1800,
        ),
        ErasedResolution::Hour => ts_in_calendar(val * 3600) && ts_in_calendar((val + 1) * 3600),
        ErasedResolution::Day => calendar::DAY_MIN <= val <= calendar::DAY_MAX,
        ErasedResolution::Week { start_weekday } => start_weekday <= 6
            && calendar::DAY_MIN <= crate::week::week_start_day(val, start_weekday as int)
            <= calendar::DAY_MAX,
        ErasedResolution::Month => 12 * calendar::YEAR_MIN <= val <= 12 * calendar::YEAR_MAX + 11,
        ErasedResolution::Quarter => 4 * calendar::YEAR_MIN <= val <= 4 * calendar::YEAR_MAX + 3,
        ErasedResolution::Year => i64::MIN < val,
        ErasedResolution::Other { .. } => true,
    }
}

/// The text of an erased index under a known kind: the kind's name, a
/// colon, and the period's own text.
pub open spec fn erased_text(kind: ErasedResolution, val: int) -> Seq<char> {
    match kind {
        ErasedResolution::Minute => "Minute:"@ + minutes_text(val, 1),
        ErasedResolution::FiveMinute => "FiveMinute:"@ + minutes_text(val, 5),
        ErasedResolution::HalfHour => "HalfHour:"@ + minutes_text(val, 30),
        ErasedResolution::Hour => "Hour:"@ + minutes_text(val, 60),
        ErasedResolution::Day => "Day:"@ + day_text(val),
        ErasedResolution::Week { start_weekday } => "Week:"@ + week_text(
            val,
            start_weekday as int,
        ),
        ErasedResolution::Month => "Month:"@ + month_text(val),
        ErasedResolution::Quarter => "Quarter:"@ + quarter_text(val),
        ErasedResolution::Year => "Year:"@ + year_text(val),
        ErasedResolution::Other { .. } => Seq::empty(),
    }
}

/// Format an index stored in its erased `i64` form alongside the kind it
/// was taken from. The kinds of this crate are handled here; an index of
/// any other kind is handed to the caller's own formatter.
pub fn format_erased_resolution<F: Fn(u64, i64) -> String>(
    handle_unknown: F,
    kind: ErasedResolution,
    val: i64,
) -> (r: String)
    requires
        erased_ok(kind, val as int),
        kind matches ErasedResolution::Other { tag } ==> handle_unknown.requires((tag, val)),
    ensures
        !(kind is Other) ==> r@ == erased_text(kind, val as int),
        kind matches ErasedResolution::Other { tag } ==> handle_unknown.ensures((tag, val), r),
{
    match kind {
        ErasedResolution::Minute => {
            let mut s = String::new();
            s.append("Minute:");
            let p: Minutes<1> = Minutes { n: val };
            let t = p.to_text();
            s.append(t.as_str());
            proof {
                assert(s@ =~= erased_text(kind, val as int));
            }
            s
        },
        ErasedResolution::FiveMinute => {
            let mut s = String::new();
            s.append("FiveMinute:");
            let p: Minutes<5> = Minutes { n: val };
            let t = p.to_text();
            s.append(t.as_str());
            proof {
                assert(s@ =~= erased_text(kind, val as int));
            }
            s
        },
        ErasedResolution::HalfHour => {
            let mut s = String::new();
            s.append("HalfHour:");
            let p: Minutes<30> = Minutes { n: val };
            let t = p.to_text();
            s.append(t.as_str());
            proof {
                assert(s@ =~= erased_text(kind, val as int));
            }
            s
        },
        ErasedResolution::Hour => {
            let mut s = String::new();
            s.append("Hour:");
            let p: Minutes<60> = Minutes { n: val };
            let t = p.to_text();
            s.append(t.as_str());
            proof {
                assert(s@ =~= erased_text(kind, val as int));
            }
            s
        },
        ErasedResolution::Day => {
            let mut s = String::new();
            s.append("Day:");
            let d = Date::from_day_number(val);
            push_date(&mut s, &d);
            proof {
                assert(s@ =~= erased_text(kind, val as int));
            }
            s
        },
        ErasedResolution::Week { start_weekday } => {
            let mut s = String::new();
            s.append("Week:");
            s.append("Week starting ");
            let d = Date::from_day_number(WEEK_BASE_DAY + start_weekday as i64 + 7 * val);
            push_date(&mut s, &d);
            proof {
                assert(s@ =~= erased_text(kind, val as int));
            }
            s
        },
        ErasedResolution::Month => {
            let mut s = String::new();
            s.append("Month:");
            let t = (Month { n: val }).to_text();
            s.append(t.as_str());
            proof {
                assert(s@ =~= erased_text(kind, val as int));
            }
            s
        },
        ErasedResolution::Quarter => {
            let mut s = String::new();
            s.append("Quarter:");
            let t = (Quarter { n: val }).to_text();
            s.append(t.as_str());
            proof {
                assert(s@ =~= erased_text(kind, val as int));
            }
            s
        },
        ErasedResolution::Year => {
            let mut s = String::new();
            s.append("Year:");
            let t = (Year { n: val }).to_text();
            s.append(t.as_str());
            proof {
                assert(s@ =~= erased_text(kind, val as int));
            }
            s
        },
        ErasedResolution::Other { tag } => handle_unknown(tag, val),
    }
}

} // verus!
