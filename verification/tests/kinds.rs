use chrono::Datelike;
use timeres::{
    Date, DateResolution, DateResolutionExt, Day, Error, FromMonotonic, Friday, Monday, Month,
    MonthOfYear, Monotonic, Quarter, Saturday, Sunday, Thursday, TimeResolution, Tuesday,
    Wednesday, Week, Year,
};

fn date(y: i64, m: u8, d: u8) -> Date {
    Date::from_ymd(y, m, d).unwrap()
}

#[test]
fn day_test_roundtrip() {
    let dt = date(2021, 12, 6);
    let wk = Day::new(dt);
    assert!(wk.start() <= dt && wk.end() >= dt);
}

#[test]
fn day_test_parse_date_syntax() {
    assert_eq!(Day::parse_text("2021-01-01").unwrap().start(), date(2021, 1, 1));
    assert_eq!(Day::parse_text("2021-01-01").unwrap().succ().start(), date(2021, 1, 2));
    assert_eq!(
        Day::parse_text("2021-01-01").unwrap().succ().pred().start(),
        date(2021, 1, 1)
    );
}

#[test]
fn day_test_start() {
    assert_eq!(Day::from_monotonic(2).start(), date(0, 1, 3));
    assert_eq!(Day::from_monotonic(1).start(), date(0, 1, 2));
    assert_eq!(Day::from_monotonic(0).start(), date(0, 1, 1));
    assert_eq!(Day::from_monotonic(-1).start(), date(-1, 12, 31));
    assert_eq!(Day::from_monotonic(-2).start(), date(-1, 12, 30));
}

#[test]
fn month_test_roundtrip() {
    let dt = date(2021, 12, 6);
    let m1 = Month::new(dt);
    assert!(m1.start() <= dt && m1.end() >= dt);

    let dt2 = date(2019, 7, 1);
    let m2 = Month::new(dt2);
    assert!(m2.start() == dt2);
}

#[test]
fn month_test_parse() {
    assert_eq!(Month::parse_text("Jan-2021").unwrap().start(), date(2021, 1, 1));
    assert_eq!(Month::parse_text("Jan-2021").unwrap().succ().start(), date(2021, 2, 1));
    assert_eq!(
        Month::parse_text("Jan-2021").unwrap().succ().pred().start(),
        date(2021, 1, 1)
    );
}

#[test]
fn month_test_start() {
    assert_eq!(Month::from_monotonic(24240).start(), date(2020, 1, 1));
    assert_eq!(Month::from_monotonic(24249).start(), date(2020, 10, 1));
    assert_eq!(Month::from_monotonic(15).start(), date(1, 4, 1));
    assert_eq!(Month::from_monotonic(2).start(), date(0, 3, 1));
    assert_eq!(Month::from_monotonic(1).start(), date(0, 2, 1));
    assert_eq!(Month::from_monotonic(0).start(), date(0, 1, 1));
    assert_eq!(Month::from_monotonic(-1).start(), date(-1, 12, 1));
    assert_eq!(Month::from_monotonic(-2).start(), date(-1, 11, 1));
    assert_eq!(Month::from_monotonic(-15).start(), date(-2, 10, 1));
}

#[test]
fn quarter_test_roundtrip() {
    let dt = date(2021, 12, 6);
    let wk = Quarter::new(dt);
    assert!(wk.start() <= dt && wk.end() >= dt);
}

#[test]
fn test_parse_quarter_syntax() {
    assert_eq!(Quarter::parse_text("Q1-2021").unwrap().start(), date(2021, 1, 1));
    assert_eq!(Quarter::parse_text("Q1-2021").unwrap().succ().start(), date(2021, 4, 1));
    assert_eq!(
        Quarter::parse_text("Q1-2021").unwrap().succ().pred().start(),
        date(2021, 1, 1)
    );
}

#[test]
fn quarter_test_parse_date_syntax() {
    assert_eq!(Quarter::parse_text("2021-01-01").unwrap().start(), date(2021, 1, 1));
    assert_eq!(Quarter::parse_text("2021-01-01").unwrap().succ().start(), date(2021, 4, 1));
    assert_eq!(
        Quarter::parse_text("2021-01-01").unwrap().succ().pred().start(),
        date(2021, 1, 1)
    );
}

#[test]
fn quarter_test_start() {
    assert_eq!(Quarter::from_monotonic(2).start(), date(0, 7, 1));
    assert_eq!(Quarter::from_monotonic(1).start(), date(0, 4, 1));
    assert_eq!(Quarter::from_monotonic(0).start(), date(0, 1, 1));
    assert_eq!(Quarter::from_monotonic(-1).start(), date(-1, 10, 1));
    assert_eq!(Quarter::from_monotonic(-2).start(), date(-1, 7, 1));
}

#[test]
fn week_test_roundtrip() {
    let dt = date(2021, 12, 6);

    let wk: Week<Monday> = Week::new(dt);
    assert!(wk.start() <= dt && wk.end() >= dt);

    let wk: Week<Tuesday> = Week::new(dt);
    assert!(wk.start() <= dt && wk.end() >= dt);

    let wk: Week<Wednesday> = Week::new(dt);
    assert!(wk.start() <= dt && wk.end() >= dt);

    let wk: Week<Thursday> = Week::new(dt);
    assert!(wk.start() <= dt && wk.end() >= dt);

    let wk: Week<Friday> = Week::new(dt);
    assert!(wk.start() <= dt && wk.end() >= dt);

    let wk: Week<Saturday> = Week::new(dt);
    assert!(wk.start() <= dt && wk.end() >= dt);

    let wk: Week<Sunday> = Week::new(dt);
    assert!(wk.start() <= dt && wk.end() >= dt);
}

#[test]
fn week_test_parse() {
    assert_eq!(
        Week::<Monday>::parse_text("Week starting 2021-12-06").unwrap().start(),
        date(2021, 12, 6)
    );
    assert_eq!(
        Week::<Monday>::parse_text("Week starting 2021-12-06").unwrap().succ().start(),
        date(2021, 12, 13)
    );
    assert_eq!(
        Week::<Monday>::parse_text("Week starting 2021-12-06")
            .unwrap()
            .succ()
            .pred()
            .start(),
        date(2021, 12, 6)
    );

    assert!(Week::<Tuesday>::parse_text("Week starting 2021-12-06").is_err());
    assert!(Week::<Wednesday>::parse_text("Week starting 2021-12-06").is_err());
    assert!(Week::<Thursday>::parse_text("Week starting 2021-12-06").is_err());
    assert!(Week::<Friday>::parse_text("Week starting 2021-12-06").is_err());
    assert!(Week::<Saturday>::parse_text("Week starting 2021-12-06").is_err());
    assert!(Week::<Sunday>::parse_text("Week starting 2021-12-06").is_err());
}

#[test]
fn year_test_roundtrip() {
    let dt = date(2021, 12, 6);
    let yr = Year::new(2021);
    assert!(yr.start() <= dt && yr.end() >= dt);
}

#[test]
fn year_test_parse() {
    assert_eq!(Year::parse_text("2021").unwrap().start(), date(2021, 1, 1));
    assert_eq!(Year::parse_text("2021").unwrap().succ().start(), date(2022, 1, 1));
    assert_eq!(Year::parse_text("2021").unwrap().succ().pred().start(), date(2021, 1, 1));

    assert!(Year::parse_text("a2021").is_err());
}

#[test]
fn getters_follow_the_calendar() {
    let d = Day::new(date(2024, 11, 7));
    assert_eq!(d.year_num(), 2024);
    assert_eq!(d.month_num(), 11);
    assert_eq!(d.year(), Year::new(2024));
    assert_eq!(d.month(), Month::new(date(2024, 11, 1)));
    assert_eq!(d.quarter(), Quarter::new(date(2024, 10, 1)));
    let wk: Week<Monday> = d.week();
    assert_eq!(wk.start(), date(2024, 11, 4));

    let m = Month::from_parts(2024, MonthOfYear::November);
    assert_eq!(m.year_num(), 2024);
    assert_eq!(m.month_num(), 11);
    assert_eq!(m.month(), MonthOfYear::November);
    assert_eq!(m.year().year_num(), 2024);
    assert_eq!(m.quarter().quarter_num(), 4);

    let q = Quarter::new(date(2024, 10, 1));
    assert_eq!(q.quarter_num(), 4);
    assert_eq!(q.year_num(), 2024);
    assert_eq!(q.first_month(), Month::new(date(2024, 10, 1)));
    assert_eq!(q.last_month(), Month::new(date(2024, 12, 1)));

    let y = Year::new(2024);
    assert_eq!(y.first_month(), Month::new(date(2024, 1, 1)));
    assert_eq!(y.last_month(), Month::new(date(2024, 12, 1)));
    assert_eq!(y.first_quarter(), Month::new(date(2024, 1, 1)));
    assert_eq!(y.last_quarter(), Month::new(date(2024, 12, 1)));
}

#[test]
fn calendar_agrees_with_chrono() {
    // A sweep of day numbers, compared against chrono's proleptic
    // Gregorian calendar.
    let base = chrono::NaiveDate::from_ymd_opt(0, 1, 1).unwrap();
    let mut n: i64 = -800000;
    while n <= 800000 {
        let ours = Day::from_monotonic(n).start();
        let theirs = base + chrono::Duration::days(n);
        assert_eq!(ours.year, theirs.year() as i64);
        assert_eq!(ours.month as u32, theirs.month());
        assert_eq!(ours.day as u32, theirs.day());
        n += 7919;
    }
    // And the weekday anchor.
    assert_eq!(date(2021, 1, 4).weekday(), 0);
    assert_eq!(date(2021, 1, 10).weekday(), 6);
}

#[test]
fn epoch_literals() {
    assert_eq!(Day::from_monotonic(0).start(), date(0, 1, 1));
    assert_eq!(Day::from_monotonic(-1).start(), date(-1, 12, 31));
    assert_eq!(Month::from_monotonic(0).start(), date(0, 1, 1));
    assert_eq!(Month::from_monotonic(24240).start(), date(2020, 1, 1));
    assert_eq!(Month::from_monotonic(-1).start(), date(-1, 12, 1));
    assert_eq!(Quarter::from_monotonic(0).start(), date(0, 1, 1));
    assert_eq!(Quarter::from_monotonic(-1).start(), date(-1, 10, 1));
}

#[test]
fn succ_pred_round_trips() {
    let day = Day::new(date(2021, 6, 15));
    assert_eq!(day.succ().pred(), day);
    assert_eq!(day.pred().succ(), day);
    assert_eq!(day.succ_n(10).pred_n(10), day);
    let m = Month::new(date(2021, 6, 15));
    assert_eq!(m.succ().pred(), m);
    let q = Quarter::new(date(2021, 6, 15));
    assert_eq!(q.succ().pred(), q);
    let y = Year::new(2021);
    assert_eq!(y.succ().pred(), y);
    let w: Week<Thursday> = Week::new(date(2021, 6, 15));
    assert_eq!(w.succ().pred(), w);
}

#[test]
fn from_date_covers_the_date() {
    let samples = [
        date(2021, 1, 1),
        date(2021, 12, 31),
        date(2024, 2, 29),
        date(-1, 12, 31),
        date(0, 1, 1),
        date(1999, 7, 16),
    ];
    for d in samples {
        assert!(Day::new(d).start() <= d && Day::new(d).end() >= d);
        assert!(Month::new(d).start() <= d && Month::new(d).end() >= d);
        assert!(Quarter::new(d).start() <= d && Quarter::new(d).end() >= d);
        let y = Year::from_date(&d, ());
        assert!(y.start() <= d && y.end() >= d);
        let w: Week<Wednesday> = Week::new(d);
        assert!(w.start() <= d && w.end() >= d);
    }
}

#[test]
fn parse_error_variants() {
    assert_eq!(Day::parse_text("2021-13-01"), Err(Error::ParseDate));
    assert_eq!(Day::parse_text("2021-02-30"), Err(Error::ParseDate));
    assert_eq!(Month::parse_text("Jay-2021"), Err(Error::ParseCustom));
    assert_eq!(Month::parse_text("Jan-20x1"), Err(Error::ParseInt));
    assert_eq!(Quarter::parse_text("Q5-2021"), Err(Error::ParseCustom));
    assert_eq!(Quarter::parse_text("Q1-20x1"), Err(Error::ParseInt));
    assert_eq!(
        Week::<Monday>::parse_text("Week starting 2021-12-6"),
        Err(Error::UnexpectedInputLength { required: 24, actual: 23 })
    );
    assert_eq!(
        Week::<Tuesday>::parse_text("Week starting 2021-12-06"),
        Err(Error::UnexpectedStartDate { required_weekday: 1, actual_weekday: 0 })
    );
    assert_eq!(Year::parse_text(""), Err(Error::ParseInt));
}

#[test]
fn text_round_trips() {
    let m = Month::parse_text("Jan-2021").unwrap();
    assert_eq!(m.to_text(), "Jan-2021");
    let q = Quarter::parse_text("Q1-2021").unwrap();
    assert_eq!(q.to_text(), "Q1-2021");
    let d = Day::parse_text("2021-12-06").unwrap();
    assert_eq!(d.to_text(), "2021-12-06");
    let w = Week::<Monday>::parse_text("Week starting 2021-12-06").unwrap();
    assert_eq!(w.to_text(), "Week starting 2021-12-06");
    let y = Year::parse_text("2021").unwrap();
    assert_eq!(y.to_text(), "2021");
    assert_eq!(Day::from_monotonic(-1).to_text(), "-0001-12-31");
}
