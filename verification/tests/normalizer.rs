//! Tests of the duration normalizer: classification, status mapping,
//! and the fail-fast behaviour of batch normalization.

use absences::normalize::{
    duration_minutes, normalize_all, normalize_entry, status_of, NormalizedEntry, RawEntry, Status,
};

fn raw(absence: &str, name: &str, status: &str, updated: &str) -> RawEntry {
    RawEntry {
        absence_field: absence.to_string(),
        person_name: name.to_string(),
        status_text: status.to_string(),
        updated_at: updated.to_string(),
    }
}

#[test]
fn clock_range_is_minutes_between_times() {
    // One school-hour: 67 minutes.
    assert_eq!(duration_minutes("Mo 08:00 Uhr - 09:07 Uhr)"), Some(67));
}

#[test]
fn clock_range_with_longer_prefix() {
    // Structural scanning: the weekday name's length must not matter.
    assert_eq!(duration_minutes("Donnerstag 08:00 Uhr - 09:07 Uhr)"), Some(67));
    assert_eq!(duration_minutes("(Mi 08:00 - 09:07)"), Some(67));
}

#[test]
fn clock_range_backwards_is_negative() {
    assert_eq!(duration_minutes("Mo 09:07 Uhr - 08:00 Uhr)"), Some(-67));
}

#[test]
fn date_range_counts_days_inclusive() {
    // Three calendar days, four school-hours of 67 minutes each per day.
    assert_eq!(duration_minutes("01.03.2024 - 03.03.2024"), Some(3 * 4 * 67));
}

#[test]
fn date_range_single_day() {
    assert_eq!(duration_minutes("05.03.2024 - 05.03.2024"), Some(4 * 67));
}

#[test]
fn date_range_across_leap_day() {
    // 2024 is a leap year: 28.02., 29.02., 01.03. are three days.
    assert_eq!(duration_minutes("28.02.2024 - 01.03.2024"), Some(3 * 4 * 67));
}

#[test]
fn date_range_across_year_end() {
    assert_eq!(duration_minutes("31.12.2023 - 01.01.2024"), Some(2 * 4 * 67));
}

#[test]
fn reversed_date_range_is_negative() {
    // End before start: minus one day after the inclusive count.
    assert_eq!(duration_minutes("03.03.2024 - 01.03.2024"), Some(-(4 * 67)));
}

#[test]
fn no_separator_is_one_school_day() {
    assert_eq!(duration_minutes("ganzt\u{e4}gig"), Some(4 * 67));
    assert_eq!(duration_minutes(""), Some(4 * 67));
}

#[test]
fn out_of_range_time_is_rejected() {
    assert_eq!(duration_minutes("25:99 - 26:00)"), None);
}

#[test]
fn missing_time_token_is_rejected() {
    assert_eq!(duration_minutes("Mo morgens - abends)"), None);
}

#[test]
fn nonexistent_date_is_rejected() {
    // February has no 31st day, in no year.
    assert_eq!(duration_minutes("31.02.2024 - 01.03.2024"), None);
    // 2023 is no leap year.
    assert_eq!(duration_minutes("29.02.2023 - 01.03.2023"), None);
    assert_eq!(duration_minutes("29.02.2024 - 01.03.2024"), Some(2 * 4 * 67));
}

#[test]
fn missing_date_token_is_rejected() {
    assert_eq!(duration_minutes("gestern - heute"), None);
}

#[test]
fn status_mapping_is_case_insensitive() {
    assert_eq!(status_of("entschuldigt"), Status::Excused);
    assert_eq!(status_of("Entschuldigt"), Status::Excused);
    assert_eq!(status_of("ENTSCHULDIGT"), Status::Excused);
    assert_eq!(status_of("unentschuldigt"), Status::Unexcused);
    assert_eq!(status_of(""), Status::Unexcused);
    assert_eq!(status_of("krank"), Status::Unexcused);
}

#[test]
fn normalize_entry_passes_fields_through() {
    let entry = normalize_entry(&raw("ganzt\u{e4}gig", "Alice", "ENTSCHULDIGT", "01.02.2024"), 0)
        .expect("whole-day field must normalize");
    assert_eq!(entry.duration_minutes, 268);
    assert_eq!(entry.person_name, "Alice");
    assert_eq!(entry.status, Status::Excused);
    assert_eq!(entry.updated_at, "01.02.2024");
}

#[test]
fn normalize_entry_constructor_sets_fields() {
    let entry = NormalizedEntry::new(67, "Bob".to_string(), Status::Unexcused, "x".to_string());
    assert_eq!(entry.duration_minutes, 67);
    assert_eq!(entry.person_name, "Bob");
    assert_eq!(entry.status, Status::Unexcused);
    assert_eq!(entry.updated_at, "x");
}

#[test]
fn normalize_all_returns_all_rows_in_order() {
    let rows = vec![
        raw("Mo 08:00 Uhr - 09:07 Uhr)", "Alice", "entschuldigt", "a"),
        raw("01.03.2024 - 03.03.2024", "Bob", "unentschuldigt", "b"),
        raw("ganzt\u{e4}gig", "Alice", "krank", "c"),
    ];
    let entries = normalize_all(&rows).expect("all rows are well-formed");
    assert_eq!(entries.len(), 3);
    assert_eq!(entries[0].duration_minutes, 67);
    assert_eq!(entries[1].duration_minutes, 804);
    assert_eq!(entries[2].duration_minutes, 268);
    assert_eq!(entries[0].status, Status::Excused);
    assert_eq!(entries[1].status, Status::Unexcused);
    assert_eq!(entries[2].status, Status::Unexcused);
}

#[test]
fn normalize_all_fails_fast_and_names_the_row() {
    let rows = vec![
        raw("ganzt\u{e4}gig", "Alice", "entschuldigt", "a"),
        raw("25:99 - 26:00)", "Bob", "entschuldigt", "b"),
        raw("ganzt\u{e4}gig", "Carol", "entschuldigt", "c"),
    ];
    let err = normalize_all(&rows).expect_err("the malformed row must be reported");
    assert_eq!(err.row, 1);
    assert_eq!(err.field, "25:99 - 26:00)");
}
