use eris::dates::Date;
use eris::language::Language;

fn d(year: u16, month: u8, day: u8) -> Date {
    Date::from_ymd(year, month, day).unwrap()
}

#[test]
fn test_parse_date_de() {
    let date = Language::DE.parse_date("09.12.1999").unwrap();
    assert_eq!(date, d(1999, 12, 9));
}

#[test]
fn test_parse_date_en() {
    let date = Language::EN.parse_date("12/09/1999").unwrap();
    assert_eq!(date, d(1999, 12, 9));
}

#[test]
fn test_parse_date_rejects_wrong_shape() {
    assert!(Language::DE.parse_date("9.12.1999").is_none());
    assert!(Language::DE.parse_date("12/09/1999").is_none());
    assert!(Language::EN.parse_date("09.12.1999").is_none());
    assert!(Language::DE.parse_date("").is_none());
    assert!(Language::DE.parse_date("ab.cd.efgh").is_none());
}

#[test]
fn test_parse_date_rejects_off_calendar() {
    assert!(Language::DE.parse_date("31.02.2000").is_none());
    assert!(Language::DE.parse_date("29.02.2000").is_some());
    assert!(Language::DE.parse_date("29.02.1900").is_none());
    assert!(Language::DE.parse_date("01.13.2000").is_none());
    assert!(Language::DE.parse_date("00.01.2000").is_none());
}
