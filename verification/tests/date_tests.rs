use commitgrid::date::Date;

#[test]
fn epoch_day_is_zero_seconds() {
    let d = Date::from_ymd(1970, 1, 1).unwrap();
    assert_eq!(d.epoch_seconds(), 0);
    assert_eq!(d.day_number(), 719162);
}

#[test]
fn first_day_of_2024_midnight() {
    let d = Date::from_ymd(2024, 1, 1).unwrap();
    assert_eq!(d.epoch_seconds(), 1_704_067_200);
}

#[test]
fn weekday_of_known_days() {
    // 2024-01-01 was a Monday, 1970-01-01 a Thursday.
    assert_eq!(Date::from_ymd(2024, 1, 1).unwrap().weekday_offset(), 0);
    assert_eq!(Date::from_ymd(1970, 1, 1).unwrap().weekday_offset(), 3);
    assert_eq!(Date::from_ymd(2024, 1, 7).unwrap().weekday_offset(), 6);
}

#[test]
fn leap_day_validity() {
    assert!(Date::from_ymd(2024, 2, 29).is_some());
    assert!(Date::from_ymd(2023, 2, 29).is_none());
    assert!(Date::from_ymd(2000, 2, 29).is_some());
    assert!(Date::from_ymd(1900, 2, 29).is_none());
}

#[test]
fn invalid_dates_are_rejected() {
    assert!(Date::from_ymd(0, 1, 1).is_none());
    assert!(Date::from_ymd(10000, 1, 1).is_none());
    assert!(Date::from_ymd(2024, 13, 1).is_none());
    assert!(Date::from_ymd(2024, 0, 1).is_none());
    assert!(Date::from_ymd(2024, 4, 31).is_none());
    assert!(Date::from_ymd(2024, 1, 0).is_none());
}

#[test]
fn ymd_round_trip() {
    let d = Date::from_ymd(2024, 1, 1).unwrap();
    let d2 = Date::from_day_number(d.day_number()).unwrap();
    assert_eq!(d2.ymd(), (2024, 1, 1));
    assert_eq!(Date::from_ymd(2024, 12, 31).unwrap().ymd(), (2024, 12, 31));
    assert_eq!(Date::from_ymd(2024, 2, 29).unwrap().ymd(), (2024, 2, 29));
    assert_eq!(Date::default().ymd(), (1, 1, 1));
}

#[test]
fn consecutive_days_cross_month_and_year() {
    let d = Date::from_ymd(2023, 12, 31).unwrap();
    let e = d.add_days(1).unwrap();
    assert_eq!(e.ymd(), (2024, 1, 1));
    let f = Date::from_ymd(2024, 2, 28).unwrap().add_days(1).unwrap();
    assert_eq!(f.ymd(), (2024, 2, 29));
    let g = Date::from_ymd(2023, 2, 28).unwrap().add_days(1).unwrap();
    assert_eq!(g.ymd(), (2023, 3, 1));
}

#[test]
fn canonical_text_is_unpadded() {
    assert_eq!(Date::from_ymd(2024, 1, 5).unwrap().to_text(), "2024-1-5");
    assert_eq!(Date::from_ymd(2024, 12, 31).unwrap().to_text(), "2024-12-31");
    assert_eq!(Date::default().to_text(), "1-1-1");
}

#[test]
fn monday_rolls_back_within_week() {
    let wed = Date::from_ymd(2024, 1, 3).unwrap();
    let monday = wed.monday_on_or_before();
    assert_eq!(monday.ymd(), (2024, 1, 1));
    let mon = Date::from_ymd(2024, 1, 1).unwrap();
    assert_eq!(mon.monday_on_or_before().ymd(), (2024, 1, 1));
}

#[test]
fn day_range_limits() {
    assert!(Date::from_day_number(3652058).is_some());
    assert!(Date::from_day_number(3652059).is_none());
    assert_eq!(Date::from_day_number(3652058).unwrap().ymd(), (9999, 12, 31));
}
