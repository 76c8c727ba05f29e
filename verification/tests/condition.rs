use rolling_file::{LocalDateTime, RollingCondition, RollingConditionBasic, RollingFrequency};

fn at(year: i32, month: u32, day: u32, hour: u32, minute: u32, second: u32) -> LocalDateTime {
    LocalDateTime::new(year, month, day, hour, minute, second).unwrap()
}

struct Always;

impl RollingCondition for Always {
    fn should_rollover(&mut self, _now: &LocalDateTime, _current_filesize: u64) -> bool {
        true
    }
}

#[test]
fn a_condition_of_ones_own_can_stand_in() {
    let mut c = Always;
    assert!(c.should_rollover(&at(2021, 3, 30, 1, 2, 3), 0));
    assert!(c.should_rollover(&at(2021, 3, 30, 1, 2, 3), 0));
}

#[test]
fn first_evaluation_never_rolls_over_on_the_calendar() {
    let mut c = RollingConditionBasic::new().minutely();
    assert!(!c.should_rollover(&at(2021, 3, 30, 1, 2, 3), 0));
    let mut c = RollingConditionBasic::new().daily();
    assert!(!c.should_rollover(&at(1999, 12, 31, 23, 59, 59), u64::MAX));
}

#[test]
fn hourly_rolls_over_when_the_hour_changes() {
    let mut c = RollingConditionBasic::new().hourly();
    assert!(!c.should_rollover(&at(2021, 3, 30, 1, 2, 3), 0));
    assert!(!c.should_rollover(&at(2021, 3, 30, 1, 59, 59), 0));
    assert!(c.should_rollover(&at(2021, 3, 30, 2, 0, 0), 0));
    assert!(!c.should_rollover(&at(2021, 3, 30, 2, 3, 0), 0));
    assert!(c.should_rollover(&at(2021, 3, 31, 2, 3, 0), 0));
    assert!(c.should_rollover(&at(2021, 4, 31 - 1, 2, 3, 0), 0));
    assert!(c.should_rollover(&at(2022, 4, 30, 2, 3, 0), 0));
}

#[test]
fn daily_rolls_over_when_the_date_changes() {
    let mut c = RollingConditionBasic::new().daily();
    assert!(!c.should_rollover(&at(2021, 3, 30, 0, 0, 0), 0));
    assert!(!c.should_rollover(&at(2021, 3, 30, 23, 59, 59), 0));
    assert!(c.should_rollover(&at(2021, 3, 31, 0, 0, 0), 0));
    assert!(c.should_rollover(&at(2021, 4, 1, 0, 0, 0), 0));
    assert!(!c.should_rollover(&at(2021, 4, 1, 12, 0, 0), 0));
}

#[test]
fn minutely_rolls_over_when_the_minute_changes() {
    let mut c = RollingConditionBasic::new().minutely();
    assert!(!c.should_rollover(&at(2021, 3, 30, 1, 2, 3), 0));
    assert!(!c.should_rollover(&at(2021, 3, 30, 1, 2, 59), 0));
    assert!(c.should_rollover(&at(2021, 3, 30, 1, 3, 0), 0));
    assert!(c.should_rollover(&at(2021, 3, 30, 2, 3, 0), 0));
}

#[test]
fn going_back_in_time_leaves_the_bucket_too() {
    let mut c = RollingConditionBasic::new().hourly();
    assert!(!c.should_rollover(&at(2021, 3, 30, 5, 0, 0), 0));
    assert!(c.should_rollover(&at(2021, 3, 30, 4, 59, 59), 0));
}

#[test]
fn every_evaluation_records_its_time() {
    // The size trigger fires at 02:30; the time of that evaluation is what
    // the next one is compared with.
    let mut c = RollingConditionBasic::new().hourly().max_size(10);
    assert!(!c.should_rollover(&at(2021, 3, 30, 1, 0, 0), 0));
    assert!(c.should_rollover(&at(2021, 3, 30, 2, 30, 0), 10));
    assert!(!c.should_rollover(&at(2021, 3, 30, 2, 45, 0), 0));
}

#[test]
fn size_trigger_alone_ignores_the_clock() {
    let mut c = RollingConditionBasic::new().max_size(100);
    assert!(!c.should_rollover(&at(2021, 3, 30, 1, 2, 3), 0));
    assert!(!c.should_rollover(&at(2031, 1, 1, 0, 0, 0), 99));
    assert!(c.should_rollover(&at(2031, 1, 1, 0, 0, 0), 100));
    assert!(c.should_rollover(&at(2031, 1, 1, 0, 0, 0), 101));
    assert!(c.should_rollover(&at(1990, 1, 1, 0, 0, 0), u64::MAX));
    assert!(!c.should_rollover(&at(1990, 1, 1, 0, 0, 0), 0));
}

#[test]
fn size_limit_of_zero_always_rolls_over() {
    let mut c = RollingConditionBasic::new().max_size(0);
    assert!(c.should_rollover(&at(2021, 3, 30, 1, 2, 3), 0));
}

#[test]
fn either_trigger_is_enough() {
    let mut c = RollingConditionBasic::new().daily().max_size(1024 * 1024);
    assert!(!c.should_rollover(&at(2021, 3, 30, 1, 0, 0), 5));
    assert!(c.should_rollover(&at(2021, 3, 30, 2, 0, 0), 1024 * 1024));
    assert!(c.should_rollover(&at(2021, 3, 31, 2, 0, 0), 5));
    assert!(c.should_rollover(&at(2021, 4, 1, 2, 0, 0), 1024 * 1024));
}

#[test]
fn no_trigger_never_rolls_over() {
    let mut c = RollingConditionBasic::new();
    assert!(!c.should_rollover(&at(2021, 3, 30, 1, 2, 3), 0));
    assert!(!c.should_rollover(&at(2025, 3, 30, 1, 2, 3), u64::MAX));
}

#[test]
fn default_condition_is_daily() {
    assert_eq!(RollingConditionBasic::default(), RollingConditionBasic::new().daily());
    let mut c = RollingConditionBasic::default();
    assert!(!c.should_rollover(&at(2021, 3, 30, 1, 2, 3), 0));
    assert!(!c.should_rollover(&at(2021, 3, 30, 23, 2, 3), u64::MAX));
    assert!(c.should_rollover(&at(2021, 3, 31, 0, 0, 0), 0));
}

#[test]
fn builders_set_one_trigger_each() {
    let base = RollingConditionBasic::new();
    assert_eq!(base.daily(), base.frequency(RollingFrequency::EveryDay));
    assert_eq!(base.hourly(), base.frequency(RollingFrequency::EveryHour));
    assert_eq!(base.minutely(), base.frequency(RollingFrequency::EveryMinute));
    assert_ne!(base.daily(), base.hourly());
    assert_ne!(base.max_size(1), base.max_size(2));
    assert_ne!(base.max_size(1), base);
    assert_eq!(base.daily().hourly(), base.hourly());
    assert_eq!(base.max_size(1).daily(), base.daily().max_size(1));
}
