//! Tests of the calendar arithmetic behind the date-range case.

use absences::dates::{date_valid, leap_year, month_length, to_day_number};

#[test]
fn leap_year_rules() {
    assert!(leap_year(2024));
    assert!(!leap_year(2023));
    assert!(leap_year(2000));
    assert!(!leap_year(1900));
}

#[test]
fn month_lengths() {
    assert_eq!(month_length(2024, 1), 31);
    assert_eq!(month_length(2024, 2), 29);
    assert_eq!(month_length(2023, 2), 28);
    assert_eq!(month_length(2024, 4), 30);
    assert_eq!(month_length(2024, 12), 31);
}

#[test]
fn date_validity() {
    assert!(date_valid(2024, 2, 29));
    assert!(!date_valid(2023, 2, 29));
    assert!(!date_valid(2024, 13, 1));
    assert!(!date_valid(2024, 0, 1));
    assert!(!date_valid(2024, 1, 0));
    assert!(!date_valid(2024, 4, 31));
    assert!(!date_valid(10000, 1, 1));
}

#[test]
fn consecutive_days_have_consecutive_numbers() {
    assert_eq!(to_day_number(2024, 1, 2), to_day_number(2024, 1, 1) + 1);
    assert_eq!(to_day_number(2024, 3, 1), to_day_number(2024, 2, 29) + 1);
    assert_eq!(to_day_number(2023, 3, 1), to_day_number(2023, 2, 28) + 1);
    assert_eq!(to_day_number(2024, 1, 1), to_day_number(2023, 12, 31) + 1);
    assert_eq!(to_day_number(2024, 3, 3) - to_day_number(2024, 3, 1), 2);
}
