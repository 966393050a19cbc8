use timeres::{
    Date, DaySubdivison, FromTimestamp, Minutes, Monotonic, SubDateResolution, TimeResolution,
};

fn utc_ts(y: i32, m: u32, d: u32, h: u32, mi: u32, s: u32) -> i64 {
    chrono::NaiveDate::from_ymd_opt(y, m, d)
        .unwrap()
        .and_hms_opt(h, mi, s)
        .unwrap()
        .and_utc()
        .timestamp()
}

#[test]
fn test_relative() {
    let base = Minutes::<1>::parse_text("2021-01-01 00:00").unwrap();
    for i in 0..1440 {
        assert_eq!(
            base.succ_n(i).relative(),
            DaySubdivison::<1>::new(i + 1).unwrap()
        );
        assert_eq!(base.succ_n(i * 1440).relative().index(), 1);
        assert_eq!(base.succ_n(i).relative().index(), i + 1,);
    }

    let base = Minutes::<2>::parse_text("2021-01-01 00:00 => 2021-01-01 00:02").unwrap();
    for i in 0..720 {
        assert_eq!(
            base.succ_n(i).relative(),
            DaySubdivison::<2>::new(i + 1).unwrap()
        );
        assert_eq!(base.succ_n(i * 720).relative().index(), 1);
        assert_eq!(base.succ_n(i).relative().index(), i + 1,);
    }

    let base = Minutes::<5>::parse_text("2021-01-01 00:00 => 2021-01-01 00:05").unwrap();
    for i in 0..288 {
        assert_eq!(
            base.succ_n(i).relative(),
            DaySubdivison::<5>::new(i + 1).unwrap()
        );
        assert_eq!(base.succ_n(i * 288).relative().index(), 1);
        assert_eq!(base.succ_n(i).relative().index(), i + 1,);
    }

    let base = Minutes::<30>::parse_text("2021-01-01 00:00 => 2021-01-01 00:30").unwrap();
    for i in 0..48 {
        assert_eq!(
            base.succ_n(i).relative(),
            DaySubdivison::<30>::new(i + 1).unwrap()
        );
        assert_eq!(base.succ_n(i * 48).relative().index(), 1);
        assert_eq!(base.succ_n(i).relative().index(), i + 1,);
    }

    let base = Minutes::<60>::parse_text("2021-01-01 00:00 => 2021-01-01 01:00").unwrap();
    for i in 0..24 {
        assert_eq!(
            base.succ_n(i).relative(),
            DaySubdivison::<60>::new(i + 1).unwrap()
        );
        assert_eq!(base.succ_n(i * 24).relative().index(), 1);
        assert_eq!(base.succ_n(i).relative().index(), i + 1,);
    }

    let base = Minutes::<120>::parse_text("2021-01-01 00:00 => 2021-01-01 02:00").unwrap();
    for i in 0..12 {
        assert_eq!(
            base.succ_n(i).relative(),
            DaySubdivison::<120>::new(i + 1).unwrap()
        );
        assert_eq!(base.succ_n(i * 12).relative().index(), 1);
        assert_eq!(base.succ_n(i).relative().index(), i + 1,);
    }
}

#[test]
fn minutes_test_roundtrip() {
    let dt = Date::from_ymd(2021, 12, 6).unwrap();
    let tm = utc_ts(2021, 12, 6, 0, 0, 0);

    let min = Minutes::<1>::from_timestamp(tm);
    assert!(min.occurs_on_date() == dt);
    assert!(min.start_timestamp() == tm);

    let min = Minutes::<2>::from_timestamp(tm);
    assert!(min.occurs_on_date() == dt);
    assert!(min.start_timestamp() == tm);

    let min = Minutes::<3>::from_timestamp(tm);
    assert!(min.occurs_on_date() == dt);
    assert!(min.start_timestamp() == tm);

    let min = Minutes::<4>::from_timestamp(tm);
    assert!(min.occurs_on_date() == dt);
    assert!(min.start_timestamp() == tm);

    let min = Minutes::<5>::from_timestamp(tm);
    assert!(min.occurs_on_date() == dt);
    assert!(min.start_timestamp() == tm);
}

#[test]
fn test_into() {
    assert_eq!(
        Minutes::<2>::from_timestamp(utc_ts(2021, 1, 1, 10, 2, 0)),
        Minutes::<2>::from_timestamp(utc_ts(2021, 1, 1, 10, 3, 59)),
    );
}

#[test]
fn minutes_test_parse() {
    assert!(Minutes::<2>::parse_text("2021-01-01 10:05").is_err());
    assert!(Minutes::<2>::parse_text("2021-01-01 10:05 => 2021-01-01 10:06").is_err());
    assert!(Minutes::<2>::parse_text("2021-01-01 10:02 => 2021-01-01 10:04").is_ok());

    assert_eq!(
        Minutes::<1>::parse_text("2021-01-01 10:05").unwrap(),
        Minutes::<1>::from_timestamp(utc_ts(2021, 1, 1, 10, 5, 0)),
    );
    assert_eq!(
        Minutes::<1>::parse_text("2021-01-01 10:05").unwrap().succ(),
        Minutes::<1>::from_timestamp(utc_ts(2021, 1, 1, 10, 6, 0)),
    );
    assert_eq!(
        Minutes::<1>::parse_text("2021-01-01 10:05").unwrap().succ().pred(),
        Minutes::<1>::from_timestamp(utc_ts(2021, 1, 1, 10, 5, 0)),
    );

    assert_eq!(
        Minutes::<2>::parse_text("2021-01-01 10:02 => 2021-01-01 10:04").unwrap(),
        Minutes::<2>::from_timestamp(utc_ts(2021, 1, 1, 10, 2, 0)),
    );

    assert_eq!(
        Minutes::<5>::parse_text("2021-01-01 10:00 => 2021-01-01 10:05").unwrap(),
        Minutes::<5>::from_timestamp(utc_ts(2021, 1, 1, 10, 0, 0)),
    );
}

#[test]
fn minutes_text_round_trip() {
    let m = Minutes::<2>::parse_text("2021-01-01 10:02 => 2021-01-01 10:04").unwrap();
    assert_eq!(m.to_text(), "2021-01-01 10:02 => 2021-01-01 10:04");
    let m = Minutes::<1>::parse_text("2021-01-01 10:05").unwrap();
    assert_eq!(m.to_text(), "2021-01-01 10:05");
}

#[test]
fn day_subdivision_slots() {
    assert_eq!(DaySubdivison::<60>::periods(), 24);
    assert_eq!(DaySubdivison::<5>::periods(), 288);
    assert!(DaySubdivison::<60>::new(0).is_none());
    assert!(DaySubdivison::<60>::new(25).is_none());
    let slot = DaySubdivison::<60>::new(24).unwrap();
    assert_eq!(slot.index(), 24);
    let date = Date::from_ymd(2021, 1, 1).unwrap();
    let on = slot.on_date(date);
    assert_eq!(on.start_timestamp(), utc_ts(2021, 1, 1, 23, 0, 0));
    assert_eq!(on.occurs_on_date(), date);
}
