use timeres::{
    format_erased_resolution, missing_pieces, Cache, CacheResponse, Date, DateResolutionExt,
    Day, ErasedResolution, FiveMinute, FromTimestamp, Hour, Minutes, Monday, Month,
    MonthOfYear, Monotonic, Quarter, SubDateResolution, TimeRange, TimeResolution, Week, Year,
};

fn utc_ts(y: i32, m: u32, d: u32, h: u32, mi: u32, s: u32) -> i64 {
    chrono::NaiveDate::from_ymd_opt(y, m, d)
        .unwrap()
        .and_hms_opt(h, mi, s)
        .unwrap()
        .and_utc()
        .timestamp()
}

#[test]
fn test_missing_pieces() {
    let pieces = missing_pieces(
        &vec![1, 2, 3, 4, 5, 6, 7, 8, 9, 10],
        &vec![2, 3, 7, 8],
    );
    assert_eq!(pieces, vec![vec![1], vec![4, 5, 6], vec![9, 10]]);
}

#[test]
fn test_contains() {
    let mth = Month::from_parts(2024, MonthOfYear::January);

    let day_range = mth.rescale::<Day>();

    assert!(day_range.contains(Minutes::<5>::from_utc_timestamp(
        utc_ts(2024, 1, 1, 15, 15, 0),
        ()
    )));

    let year = Year::new(2024);

    let month_range = year.rescale::<Month>();

    assert!(month_range.contains(mth))
}

#[test]
fn test_rescale() {
    let start = Year::new(2024);
    let year = TimeRange::from_bounds(start, start);

    let fiveminute = year.rescale::<FiveMinute>();
    assert_eq!(fiveminute.len(), 366 * 288);
    assert_eq!(fiveminute.rescale::<Year>(), year);

    let hours = year.rescale::<Hour>();
    assert_eq!(hours.len(), 366 * 24);
    assert_eq!(hours.rescale::<Year>(), year);
    assert_eq!(fiveminute.rescale::<Hour>(), hours);

    let days = year.rescale::<Day>();
    assert_eq!(days.len(), 366);
    assert_eq!(days.rescale::<Year>(), year);
    assert_eq!(fiveminute.rescale::<Day>(), days);
    assert_eq!(hours.rescale::<Day>(), days);

    let months = year.rescale::<Month>();
    assert_eq!(months.len(), 12);
    assert_eq!(months.rescale::<Year>(), year);
    assert_eq!(fiveminute.rescale::<Month>(), months);
    assert_eq!(hours.rescale::<Month>(), months);
    assert_eq!(days.rescale::<Month>(), months);
}

#[test]
fn range_operations() {
    let d0 = Day::new(Date::from_ymd(2021, 1, 1).unwrap());
    let a = TimeRange::new(d0, 10); // days 0..9 of January
    let b = TimeRange::new(d0.succ_n(5), 10); // days 5..14

    let i = a.intersection(&b).unwrap();
    assert_eq!(i.start(), d0.succ_n(5));
    assert_eq!(i.len(), 5);

    let u = a.union(&b).unwrap();
    assert_eq!(u.start(), d0);
    assert_eq!(u.len(), 15);

    // Touching but not overlapping ranges have no union.
    let c = TimeRange::new(d0.succ_n(10), 3);
    assert!(a.intersection(&c).is_none());
    assert!(a.union(&c).is_none());

    assert_eq!(a.end(), d0.succ_n(9));
    assert_eq!(a.index_of(d0.succ_n(3)), Some(3));
    assert_eq!(a.index_of(d0.succ_n(10)), None);

    let idx = a.to_indexes();
    assert_eq!(idx.len(), 10);
    assert_eq!(idx[0], d0.to_monotonic());
    assert_eq!(idx[9], d0.to_monotonic() + 9);

    let periods = a.set();
    assert_eq!(periods.len(), 10);
    assert_eq!(periods[0], d0);
    assert_eq!(periods[9], d0.succ_n(9));

    let mut it = a.iter();
    let mut count = 0u64;
    let mut current = None;
    while let Some(p) = it.next() {
        current = Some(p);
        count += 1;
    }
    assert_eq!(count, 10);
    assert_eq!(current, Some(a.end()));

    assert!(TimeRange::maybe_new(d0, 0).is_none());
    assert_eq!(TimeRange::maybe_new(d0, 4).unwrap(), TimeRange::new(d0, 4));

    let from_set = TimeRange::from_set(&periods).unwrap();
    assert_eq!(from_set, a);
    assert!(TimeRange::<Day>::from_set(&Vec::new()).is_none());
}

#[test]
fn range_from_map_partitions_runs() {
    let runs: Vec<TimeRange<Day>> = TimeRange::from_map(&vec![1, 2, 3, 7, 8, 10]);
    assert_eq!(runs.len(), 3);
    assert_eq!(runs[0].start().to_monotonic(), 1);
    assert_eq!(runs[0].len(), 3);
    assert_eq!(runs[1].start().to_monotonic(), 7);
    assert_eq!(runs[1].len(), 2);
    assert_eq!(runs[2].start().to_monotonic(), 10);
    assert_eq!(runs[2].len(), 1);

    let single: Vec<TimeRange<Day>> = TimeRange::from_map(&vec![5]);
    assert_eq!(single.len(), 1);
    assert_eq!(single[0].start().to_monotonic(), 5);
    assert_eq!(single[0].len(), 1);

    let empty: Vec<TimeRange<Day>> = TimeRange::from_map(&Vec::new());
    assert!(empty.is_empty());
}

#[test]
fn to_sub_date_resolution_spans_whole_days() {
    let d = Day::new(Date::from_ymd(2021, 3, 4).unwrap());
    let hours: TimeRange<Hour> = d.to_sub_date_resolution();
    assert_eq!(hours.len(), 24);
    assert_eq!(hours.start().start_timestamp(), utc_ts(2021, 3, 4, 0, 0, 0));

    let r = TimeRange::new(d, 2);
    let five: TimeRange<FiveMinute> = r.to_sub_date_resolution();
    assert_eq!(five.len(), 2 * 288);
}

#[test]
fn cache_empty_request_is_always_a_hit() {
    let cache: Cache<i64> = Cache::empty();
    match cache.get(&Vec::new()) {
        CacheResponse::Hit(m) => assert!(m.is_empty()),
        CacheResponse::Miss(_) => panic!("empty request must hit"),
    }

    let mut filled: Cache<i64> = Cache::empty();
    filled.add(&vec![1, 2, 3], &vec![(1, 10), (2, 20)]);
    match filled.get(&Vec::new()) {
        CacheResponse::Hit(m) => assert!(m.is_empty()),
        CacheResponse::Miss(_) => panic!("empty request must hit"),
    }
}

#[test]
fn cache_hit_and_miss() {
    let mut cache: Cache<i64> = Cache::empty();
    cache.add(&vec![1, 2, 3, 4, 5], &vec![(1, 10), (3, 30), (5, 50)]);

    // Fully covered request: every cached pair within the bounds comes
    // back, including keys not in the request itself.
    match cache.get(&vec![1, 3, 5]) {
        CacheResponse::Hit(m) => assert_eq!(m, vec![(1, 10), (3, 30), (5, 50)]),
        CacheResponse::Miss(_) => panic!("expected hit"),
    }
    match cache.get(&vec![1, 2, 3]) {
        CacheResponse::Hit(m) => assert_eq!(m, vec![(1, 10), (3, 30)]),
        CacheResponse::Miss(_) => panic!("expected hit"),
    }

    // A request reaching outside the recorded range misses with the gaps.
    match cache.get(&vec![4, 5, 6, 7]) {
        CacheResponse::Hit(_) => panic!("expected miss"),
        CacheResponse::Miss(g) => assert_eq!(g, vec![vec![6, 7]]),
    }
}

#[test]
fn cache_add_overwrites() {
    let mut cache: Cache<i64> = Cache::empty();
    cache.add(&vec![1, 2], &vec![(1, 10), (2, 20)]);
    cache.add(&vec![2, 3], &vec![(2, 99)]);
    match cache.get(&vec![1, 2, 3]) {
        CacheResponse::Hit(m) => assert_eq!(m, vec![(1, 10), (2, 99)]),
        CacheResponse::Miss(_) => panic!("expected hit"),
    }
}

#[test]
fn format_erased_kinds() {
    let fallback = |tag: u64, val: i64| format!("Other[{tag}]:{val}");

    let day = Day::new(Date::from_ymd(2021, 1, 1).unwrap());
    assert_eq!(
        format_erased_resolution(fallback, ErasedResolution::Day, day.to_monotonic()),
        "Day:2021-01-01"
    );
    let mth = Month::new(Date::from_ymd(2021, 1, 1).unwrap());
    assert_eq!(
        format_erased_resolution(fallback, ErasedResolution::Month, mth.to_monotonic()),
        "Month:Jan-2021"
    );
    let q = Quarter::new(Date::from_ymd(2021, 1, 1).unwrap());
    assert_eq!(
        format_erased_resolution(fallback, ErasedResolution::Quarter, q.to_monotonic()),
        "Quarter:Q1-2021"
    );
    assert_eq!(
        format_erased_resolution(fallback, ErasedResolution::Year, 2021),
        "Year:2021"
    );
    let minute = Minutes::<1>::from_timestamp(utc_ts(2021, 1, 1, 10, 5, 0));
    assert_eq!(
        format_erased_resolution(fallback, ErasedResolution::Minute, minute.to_monotonic()),
        "Minute:2021-01-01 10:05"
    );
    let hour = Minutes::<60>::from_timestamp(utc_ts(2021, 1, 1, 10, 0, 0));
    assert_eq!(
        format_erased_resolution(fallback, ErasedResolution::Hour, hour.to_monotonic()),
        "Hour:2021-01-01 10:00 => 2021-01-01 11:00"
    );
    let wk: Week<Monday> =
        Week::new(Date::from_ymd(2021, 12, 6).unwrap());
    assert_eq!(
        format_erased_resolution(
            fallback,
            ErasedResolution::Week { start_weekday: 0 },
            wk.to_monotonic()
        ),
        "Week:Week starting 2021-12-06"
    );
    assert_eq!(
        format_erased_resolution(fallback, ErasedResolution::Other { tag: 7 }, 42),
        "Other[7]:42"
    );
}
