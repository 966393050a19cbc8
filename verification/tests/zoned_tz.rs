use chrono::{Datelike, Offset, TimeZone};
use timeres::{
    Date, DateResolution, Day, FromTimestamp, Minutes, Monotonic, TimeRange, TimeResolution,
    Zone, Zoned,
};

fn naive_secs(dt: chrono::NaiveDateTime) -> i64 {
    dt.and_utc().timestamp()
}

fn zoned_from_datetime<const N: u32>(dt: chrono::DateTime<chrono_tz::Tz>) -> Zoned<Minutes<N>> {
    let local = naive_secs(dt.naive_local());
    let offset = dt.offset().fix().local_minus_utc();
    Zoned::from_local_parts(
        Minutes::<N>::from_timestamp(local),
        offset,
        Zone::named(dt.timezone()),
    )
}

#[test]
fn test_subdate() {
    fn subdate<const N: u32>(tz: chrono_tz::Tz) {
        let start = chrono::NaiveDate::from_ymd_opt(2022, 1, 1)
            .unwrap()
            .and_hms_opt(0, 0, 0)
            .unwrap()
            .and_local_timezone(tz)
            .unwrap();

        let start_timestamps =
            (0..((24 * 60 / N) * 365)).map(|i| start + chrono::Duration::minutes((i * N).into()));

        for start_timestamp in start_timestamps {
            let z: Zoned<Minutes<N>> = zoned_from_datetime(start_timestamp);
            assert_eq!(
                naive_secs(start_timestamp.naive_local()),
                z.local_start_timestamp(),
            );
            assert_eq!(start_timestamp.timestamp(), z.utc_start_timestamp());
        }
    }

    for tz in [
        chrono_tz::Australia::Sydney,
        chrono_tz::Australia::Adelaide,
        chrono_tz::Asia::Kathmandu,
    ] {
        subdate::<1>(tz);
        subdate::<2>(tz);
        subdate::<5>(tz);
        subdate::<6>(tz);
        subdate::<10>(tz);
        subdate::<15>(tz);
        subdate::<30>(tz);
        subdate::<60>(tz);
    }

    fn subdate_fixed<const N: u32>(offset_secs: i32) {
        let zone = Zone::fixed(offset_secs).unwrap();
        let day_start = chrono::NaiveDate::from_ymd_opt(2022, 1, 1)
            .unwrap()
            .and_hms_opt(0, 0, 0)
            .unwrap();

        for i in 0..((24 * 60 / N) * 365) {
            let local = day_start + chrono::Duration::minutes((i * N).into());
            let local_secs = naive_secs(local);
                    let z: Zoned<Minutes<N>> =
                Zoned::from_local(Minutes::<N>::from_timestamp(local_secs), zone);
            assert_eq!(local_secs, z.local_start_timestamp());
            assert_eq!(local_secs - offset_secs as i64, z.utc_start_timestamp());

            let back: Zoned<Minutes<N>> =
                Zoned::from_utc_timestamp(z.utc_start_timestamp(), zone);
            assert_eq!(back.local_resolution(), z.local_resolution());
            assert_eq!(back.local_start_timestamp(), z.local_start_timestamp());
        }
    }

    for offset in [0, 60 * 60 * 3, -(60 * 60 * 4)] {
        subdate_fixed::<1>(offset);
        subdate_fixed::<5>(offset);
        subdate_fixed::<30>(offset);
        subdate_fixed::<60>(offset);
        subdate_fixed::<120>(offset);
        subdate_fixed::<240>(offset);
    }
}

#[test]
fn test_date() {
    fn date_case(tz: chrono_tz::Tz) {
        let start = chrono::NaiveDate::from_ymd_opt(2022, 1, 1).unwrap();

        for i in 0..365u64 {
            let nd = start + chrono::Days::new(i);
            let d = Date::from_ymd(nd.year() as i64, nd.month() as u8, nd.day() as u8).unwrap();
            let zoned: Zoned<Day> = Zoned::from_date(&d, Zone::named(tz));
            assert_eq!(zoned.start(), d);
            assert_eq!(zoned.local_resolution().start(), d);

            let zoned2: Zoned<Day> = Zoned::from_date(&d, Zone::named(tz));
            assert_eq!(zoned2.start(), d);
            assert_eq!(zoned2.local_resolution().start(), d);
        }
    }
    for tz in [
        chrono_tz::Australia::Sydney,
        chrono_tz::Australia::Adelaide,
        chrono_tz::Asia::Kathmandu,
    ] {
        date_case(tz);
    }
}

#[test]
fn fall_back_midnight_takes_the_earlier_instant() {
    // In America/Havana the clocks fell back on 6 November 2022 from
    // 01:00 to 00:00, so local midnight happened twice; the resolved
    // start instant must be the earlier of the two readings.
    let tz = chrono_tz::America::Havana;
    let d = Date::from_ymd(2022, 11, 6).unwrap();
    let zoned: Zoned<Day> = Zoned::from_date(&d, Zone::named(tz));

    let earliest = tz
        .with_ymd_and_hms(2022, 11, 6, 0, 0, 0)
        .earliest()
        .unwrap()
        .timestamp();
    let latest = tz
        .with_ymd_and_hms(2022, 11, 6, 0, 0, 0)
        .latest()
        .unwrap()
        .timestamp();
    assert!(earliest < latest);
    assert_eq!(zoned.utc_start_timestamp(), earliest);
}

#[test]
fn spring_forward_midnight_skips_the_gap() {
    // In Asia/Beirut the clocks jump from 00:00 to 01:00 on the last
    // Sunday of March, so 27 March 2022 had no local midnight; the scan
    // settles on the first existing minute, 01:00, with its offset.
    let tz = chrono_tz::Asia::Beirut;
    let d = Date::from_ymd(2022, 3, 27).unwrap();

    let midnight = chrono::NaiveDate::from_ymd_opt(2022, 3, 27)
        .unwrap()
        .and_hms_opt(0, 0, 0)
        .unwrap();
    assert!(tz.from_local_datetime(&midnight).single().is_none());

    let one_am = tz
        .with_ymd_and_hms(2022, 3, 27, 1, 0, 0)
        .single()
        .unwrap();
    let offset = one_am.offset().fix().local_minus_utc();

    let zoned: Zoned<Day> = Zoned::from_date(&d, Zone::named(tz));
    assert_eq!(
        zoned.utc_start_timestamp(),
        naive_secs(midnight) - offset as i64
    );
}

#[test]
fn zoned_ranges_strip_to_local() {
    let zone = Zone::fixed(3600).unwrap();
    let start: Zoned<Minutes<60>> =
        Zoned::from_local(Minutes::<60>::from_timestamp(1_600_000_000 / 3600 * 3600), zone);
    let range = TimeRange::new(start, 5);
    let local = range.local();
    assert_eq!(local.len(), 5);
    assert_eq!(local.start(), start.local_resolution());

    let s = range.start();
    assert_eq!(s.succ().pred().local_resolution(), s.local_resolution());
    assert_eq!(
        range.end().local_resolution().to_monotonic(),
        s.local_resolution().to_monotonic() + 4
    );
}

#[test]
fn named_zone_offset_is_applied() {
    // Sydney is eleven hours ahead of UTC in January: the zoned period
    // built from a UTC instant must not read the instant back unchanged.
    let utc_jan = chrono::NaiveDate::from_ymd_opt(2022, 1, 10)
        .unwrap()
        .and_hms_opt(0, 0, 0)
        .unwrap()
        .and_utc()
        .timestamp();
    let z: Zoned<Minutes<60>> =
        Zoned::from_utc_timestamp(utc_jan, Zone::named(chrono_tz::Australia::Sydney));
    assert_eq!(z.local_start_timestamp(), utc_jan + 11 * 3600);
    assert_ne!(
        z.local_resolution(),
        Minutes::<60>::from_timestamp(utc_jan)
    );
}
