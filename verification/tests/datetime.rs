use eris::dates::{days_in_month, month_before, AlignStart, CountMonths, Date};

fn d(year: u16, month: u8, day: u8) -> Date {
    Date::from_ymd(year, month, day).unwrap()
}

#[test]
fn test_count_months() {
    let d1 = d(2022, 11, 15);
    let d2 = d(2022, 12, 20);
    let d3 = d(2023, 1, 1);
    let d4 = d(2023, 2, 2);

    assert_eq!(d1.count_months(&d2), 1);
    assert_eq!(d1.count_months(&d3), 2);
    assert_eq!(d1.count_months(&d4), 3);
}

#[test]
fn test_align_start() {
    assert_eq!(d(2023, 5, 17).align_start(), d(2023, 5, 1));
    assert_eq!(d(2023, 5, 1).align_start(), d(2023, 5, 1));
}

#[test]
fn test_month_before() {
    assert_eq!(month_before(d(2023, 1, 15)), d(2022, 12, 1));
    assert_eq!(month_before(d(2023, 6, 1)), d(2023, 5, 1));
}

#[test]
fn test_from_ymd_calendar() {
    assert!(Date::from_ymd(2000, 2, 29).is_some());
    assert!(Date::from_ymd(1900, 2, 29).is_none());
    assert!(Date::from_ymd(2023, 2, 29).is_none());
    assert!(Date::from_ymd(2023, 4, 31).is_none());
    assert!(Date::from_ymd(2023, 0, 1).is_none());
    assert!(Date::from_ymd(2023, 13, 1).is_none());
}

#[test]
fn test_days_in_month() {
    assert_eq!(days_in_month(2024, 2), 29);
    assert_eq!(days_in_month(2100, 2), 28);
    assert_eq!(days_in_month(2023, 12), 31);
    assert_eq!(days_in_month(2023, 11), 30);
}

#[test]
fn test_date_order() {
    assert!(d(2023, 2, 2).lt(&d(2023, 2, 3)));
    assert!(d(2023, 2, 3).le(&d(2023, 2, 3)));
    assert!(!d(2023, 2, 3).lt(&d(2023, 2, 3)));
    assert!(d(2022, 12, 31).lt(&d(2023, 1, 1)));
}
