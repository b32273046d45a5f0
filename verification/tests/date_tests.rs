use format_date_for_irs::{parse_date, format_date_for_irs, CalendarDate};

#[test]
fn parse_date_valid() {
    let expected = CalendarDate::from_ymd(2021, 1, 2).unwrap();
    assert_eq!(parse_date("01/02/21"), Some(expected));
}

#[test]
fn parse_date_failure() {
    assert!(parse_date("notadate").is_none());
    assert!(parse_date("13/32/22").is_none());
}

#[test]
fn parse_date_trim() {
    let trimmed = parse_date("01/02/21");
    let spaced = parse_date(" 01/02/21 ");
    assert_eq!(trimmed, spaced);
}

#[test]
fn format_date() {
    let date = CalendarDate::from_ymd(2021, 1, 2).unwrap();
    assert_eq!(format_date_for_irs(&date), "01/02/2021");
}

#[test]
fn parse_then_format_scenario() {
    let date = parse_date(" 12/31/23 ").unwrap();
    assert_eq!(date.year(), 2023);
    assert_eq!(date.month(), 12);
    assert_eq!(date.day(), 31);
    assert_eq!(format_date_for_irs(&date), "12/31/2023");
}

#[test]
fn century_window() {
    let late = parse_date("12/31/68").unwrap();
    assert_eq!(late.year(), 2068);
    let early = parse_date("01/01/69").unwrap();
    assert_eq!(early.year(), 1969);
    let turn = parse_date("06/15/00").unwrap();
    assert_eq!(turn.year(), 2000);
    let ninety_nine = parse_date("06/15/99").unwrap();
    assert_eq!(ninety_nine.year(), 1999);
}

#[test]
fn leap_years() {
    let leap = parse_date("02/29/20").unwrap();
    assert_eq!((leap.year(), leap.month(), leap.day()), (2020, 2, 29));
    assert!(parse_date("02/29/21").is_none());
    let by_400 = parse_date("02/29/00").unwrap();
    assert_eq!(by_400.year(), 2000);
}

#[test]
fn parse_rejects_wrong_shapes() {
    assert!(parse_date("").is_none());
    assert!(parse_date("   ").is_none());
    assert!(parse_date("1/2/21").is_none());
    assert!(parse_date("01-02-21").is_none());
    assert!(parse_date("01/02/2021").is_none());
    assert!(parse_date("01/02").is_none());
    assert!(parse_date("0a/02/21").is_none());
    assert!(parse_date("01/02/21 extra").is_none());
}

#[test]
fn parse_rejects_out_of_range_fields() {
    assert!(parse_date("00/10/21").is_none());
    assert!(parse_date("13/10/21").is_none());
    assert!(parse_date("04/00/21").is_none());
    assert!(parse_date("04/31/21").is_none());
    assert!(parse_date("06/31/21").is_none());
    assert!(parse_date("01/32/21").is_none());
}

#[test]
fn from_ymd_validates() {
    assert!(CalendarDate::from_ymd(2021, 0, 1).is_none());
    assert!(CalendarDate::from_ymd(2021, 13, 1).is_none());
    assert!(CalendarDate::from_ymd(2021, 1, 0).is_none());
    assert!(CalendarDate::from_ymd(2021, 1, 32).is_none());
    assert!(CalendarDate::from_ymd(2021, 2, 29).is_none());
    assert!(CalendarDate::from_ymd(2024, 2, 29).is_some());
    assert!(CalendarDate::from_ymd(1900, 2, 29).is_none());
    assert!(CalendarDate::from_ymd(2000, 2, 29).is_some());
    assert!(CalendarDate::from_ymd(10000, 1, 1).is_none());
    let d = CalendarDate::from_ymd(1969, 7, 20).unwrap();
    assert_eq!((d.year(), d.month(), d.day()), (1969, 7, 20));
}

#[test]
fn format_zero_pads() {
    let d = CalendarDate::from_ymd(5, 1, 2).unwrap();
    assert_eq!(format_date_for_irs(&d), "01/02/0005");
    let d = CalendarDate::from_ymd(2024, 11, 9).unwrap();
    assert_eq!(format_date_for_irs(&d), "11/09/2024");
    let ten = format_date_for_irs(&CalendarDate::from_ymd(1999, 12, 31).unwrap());
    assert_eq!(ten.len(), 10);
    assert_eq!(ten, "12/31/1999");
}

#[test]
fn formatted_output_never_reparses() {
    let d = parse_date("01/02/21").unwrap();
    let formatted = format_date_for_irs(&d);
    assert!(parse_date(&formatted).is_none());
}
