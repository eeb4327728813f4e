use mbtalerts::date::{next_date, next_date_of, CalendarDate};

#[test]
fn test_next_date_normal() {
    assert_eq!(next_date("2024-03-15"), "2024-03-16");
}

#[test]
fn test_next_date_month_boundary() {
    assert_eq!(next_date("2024-01-31"), "2024-02-01");
}

#[test]
fn test_next_date_year_boundary() {
    assert_eq!(next_date("2024-12-31"), "2025-01-01");
}

#[test]
fn test_next_date_leap_day() {
    assert_eq!(next_date("2024-02-29"), "2024-03-01");
}

#[test]
fn test_next_date_invalid_passthrough() {
    assert_eq!(next_date("not-a-date"), "not-a-date");
}

#[test]
fn test_next_date_february() {
    assert_eq!(next_date("2024-02-28"), "2024-02-29");
    assert_eq!(next_date("2023-02-28"), "2023-03-01");
    assert_eq!(next_date("1900-02-28"), "1900-03-01");
    assert_eq!(next_date("2000-02-28"), "2000-02-29");
}

#[test]
fn test_next_date_months_of_30_days() {
    assert_eq!(next_date("2024-04-30"), "2024-05-01");
    assert_eq!(next_date("2024-06-30"), "2024-07-01");
    assert_eq!(next_date("2024-09-30"), "2024-10-01");
    assert_eq!(next_date("2024-11-30"), "2024-12-01");
    assert_eq!(next_date("2024-07-30"), "2024-07-31");
}

#[test]
fn test_next_date_rejects_days_that_do_not_exist() {
    assert_eq!(next_date("2023-02-29"), "2023-02-29");
    assert_eq!(next_date("2024-04-31"), "2024-04-31");
    assert_eq!(next_date("2024-13-01"), "2024-13-01");
    assert_eq!(next_date("2024-01-15T10:00:00-05:00"), "2024-01-15T10:00:00-05:00");
    assert_eq!(next_date(""), "");
}

#[test]
fn test_next_date_last_day_stays() {
    assert_eq!(next_date("+262142-12-31"), "+262142-12-31");
    assert_eq!(next_date("+262142-12-30"), "+262142-12-31");
}

#[test]
fn test_next_date_of_takes_the_day_read() {
    let day = CalendarDate { year: 2024, month: 12, day: 31 };
    assert_eq!(next_date_of("anything", Some(day)), "2025-01-01");
    assert_eq!(next_date_of("anything", None), "anything");
    let last = CalendarDate { year: 262142, month: 12, day: 31 };
    assert_eq!(next_date_of("anything", Some(last)), "anything");
    let first = CalendarDate { year: -262143, month: 1, day: 1 };
    assert_eq!(next_date_of("anything", Some(first)), "-262143-01-02");
}

#[test]
fn test_next_date_writes_years_in_four_digits() {
    let early = CalendarDate { year: 5, month: 9, day: 30 };
    assert_eq!(next_date_of("", Some(early)), "0005-10-01");
    let zero = CalendarDate { year: 0, month: 2, day: 28 };
    assert_eq!(next_date_of("", Some(zero)), "0000-02-29");
    let before_zero = CalendarDate { year: -1, month: 12, day: 31 };
    assert_eq!(next_date_of("", Some(before_zero)), "0000-01-01");
    let late = CalendarDate { year: 9999, month: 12, day: 30 };
    assert_eq!(next_date_of("", Some(late)), "9999-12-31");
    assert_eq!(next_date("0999-12-31"), "1000-01-01");
}

#[test]
fn test_next_date_writes_other_years_with_a_sign() {
    let last_of_four_digits = CalendarDate { year: 9999, month: 12, day: 31 };
    assert_eq!(next_date_of("", Some(last_of_four_digits)), "+10000-01-01");
    let before_common_era = CalendarDate { year: -1, month: 1, day: 1 };
    assert_eq!(next_date_of("", Some(before_common_era)), "-0001-01-02");
}
