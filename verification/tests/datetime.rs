use rolling_file::{LocalDateTime, RollingFrequency};

#[test]
fn date_time_keeps_its_numbers() {
    let t = LocalDateTime::new(2021, 3, 30, 1, 2, 3).unwrap();
    assert_eq!(
        (t.year(), t.month(), t.day(), t.hour(), t.minute(), t.second()),
        (2021, 3, 30, 1, 2, 3)
    );
}

#[test]
fn days_that_do_not_exist_are_refused() {
    assert!(LocalDateTime::new(2023, 4, 31, 0, 0, 0).is_none());
    assert!(LocalDateTime::new(2023, 4, 30, 0, 0, 0).is_some());
    assert!(LocalDateTime::new(2015, 0, 14, 0, 0, 0).is_none());
    assert!(LocalDateTime::new(2015, 13, 14, 0, 0, 0).is_none());
    assert!(LocalDateTime::new(2015, 3, 0, 0, 0, 0).is_none());
    assert!(LocalDateTime::new(2015, 3, 32, 0, 0, 0).is_none());
    assert!(LocalDateTime::new(2015, 1, 31, 0, 0, 0).is_some());
    assert!(LocalDateTime::new(2015, 12, 31, 0, 0, 0).is_some());
}

#[test]
fn leap_years_follow_the_gregorian_rule() {
    assert!(LocalDateTime::new(2015, 2, 29, 0, 0, 0).is_none());
    assert!(LocalDateTime::new(2016, 2, 29, 0, 0, 0).is_some());
    assert!(LocalDateTime::new(1900, 2, 29, 0, 0, 0).is_none());
    assert!(LocalDateTime::new(2000, 2, 29, 0, 0, 0).is_some());
    assert!(LocalDateTime::new(2000, 2, 30, 0, 0, 0).is_none());
    assert!(LocalDateTime::new(0, 2, 29, 0, 0, 0).is_some());
    assert!(LocalDateTime::new(-4, 2, 29, 0, 0, 0).is_some());
    assert!(LocalDateTime::new(-1, 2, 29, 0, 0, 0).is_none());
    assert!(LocalDateTime::new(-100, 2, 29, 0, 0, 0).is_none());
    assert!(LocalDateTime::new(-400, 2, 29, 0, 0, 0).is_some());
}

#[test]
fn times_outside_the_day_are_refused() {
    assert!(LocalDateTime::new(2015, 6, 3, 23, 59, 59).is_some());
    assert!(LocalDateTime::new(2015, 6, 3, 24, 0, 0).is_none());
    assert!(LocalDateTime::new(2015, 6, 3, 12, 60, 0).is_none());
    assert!(LocalDateTime::new(2015, 6, 3, 12, 34, 60).is_none());
}

#[test]
fn years_have_a_range() {
    assert!(LocalDateTime::new(262142, 12, 31, 23, 59, 59).is_some());
    assert!(LocalDateTime::new(262143, 1, 1, 0, 0, 0).is_none());
    assert!(LocalDateTime::new(-262143, 1, 1, 0, 0, 0).is_some());
    assert!(LocalDateTime::new(-262144, 12, 31, 0, 0, 0).is_none());
    assert!(LocalDateTime::new(400000, 1, 1, 0, 0, 0).is_none());
    assert!(LocalDateTime::new(i32::MAX, 1, 1, 0, 0, 0).is_none());
    assert!(LocalDateTime::new(i32::MIN, 1, 1, 0, 0, 0).is_none());
}

#[test]
fn the_library_and_chrono_accept_the_same_days() {
    for year in [-262144, -262143, -401, -400, -100, -4, -1, 0, 1, 4, 100, 1900, 2000, 2023, 2024, 262142, 262143] {
        for month in 0..14u32 {
            for day in [0u32, 1, 28, 29, 30, 31, 32] {
                let ours = LocalDateTime::new(year, month, day, 0, 0, 0).is_some();
                let theirs = chrono::NaiveDate::from_ymd_opt(year, month, day).is_some();
                assert_eq!(ours, theirs);
            }
        }
    }
}

#[test]
fn equivalent_datetime_is_the_start_of_the_bucket() {
    let t = LocalDateTime::new(2021, 3, 30, 1, 2, 3).unwrap();
    assert_eq!(
        RollingFrequency::EveryDay.equivalent_datetime(&t),
        LocalDateTime::new(2021, 3, 30, 0, 0, 0).unwrap()
    );
    assert_eq!(
        RollingFrequency::EveryHour.equivalent_datetime(&t),
        LocalDateTime::new(2021, 3, 30, 1, 0, 0).unwrap()
    );
    assert_eq!(
        RollingFrequency::EveryMinute.equivalent_datetime(&t),
        LocalDateTime::new(2021, 3, 30, 1, 2, 0).unwrap()
    );
}

#[test]
fn one_bucket_one_start() {
    let a = LocalDateTime::new(2021, 3, 30, 1, 0, 0).unwrap();
    let b = LocalDateTime::new(2021, 3, 30, 1, 59, 59).unwrap();
    let c = LocalDateTime::new(2021, 3, 30, 2, 0, 0).unwrap();
    let hourly = RollingFrequency::EveryHour;
    assert_eq!(hourly.equivalent_datetime(&a), hourly.equivalent_datetime(&b));
    assert_ne!(hourly.equivalent_datetime(&b), hourly.equivalent_datetime(&c));
    let daily = RollingFrequency::EveryDay;
    assert_eq!(daily.equivalent_datetime(&a), daily.equivalent_datetime(&c));
    let minutely = RollingFrequency::EveryMinute;
    assert_ne!(minutely.equivalent_datetime(&a), minutely.equivalent_datetime(&b));
    let d = LocalDateTime::new(2021, 3, 31, 1, 0, 0).unwrap();
    assert_ne!(daily.equivalent_datetime(&a), daily.equivalent_datetime(&d));
    assert_ne!(hourly.equivalent_datetime(&a), hourly.equivalent_datetime(&d));
    assert_eq!(hourly.equivalent_datetime(&hourly.equivalent_datetime(&b)), a);
}
