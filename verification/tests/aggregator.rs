//! Tests of the absence aggregator: grouping, ordering, truncation,
//! conservation, and determinism.

use absences::aggregate::{calculate_absence_sum, RecordAbsenceSum};
use absences::normalize::{NormalizedEntry, Status};

fn entry(name: &str, minutes: i64, status: Status) -> NormalizedEntry {
    NormalizedEntry::new(minutes, name.to_string(), status, String::new())
}

#[test]
fn aggregation_example() {
    // Alice: one excused school-hour and four unexcused, Bob: two
    // excused; summaries sorted by name.
    let entries = vec![
        entry("Alice", 67, Status::Excused),
        entry("Alice", 4 * 67, Status::Unexcused),
        entry("Bob", 2 * 67, Status::Excused),
    ];
    let summaries = calculate_absence_sum(&entries);
    assert_eq!(summaries.len(), 2);
    assert_eq!(summaries[0].person_name, "Alice");
    assert_eq!(summaries[0].excused_total, 1);
    assert_eq!(summaries[0].unexcused_total, 4);
    assert_eq!(summaries[0].grand_total, 5);
    assert_eq!(summaries[1].person_name, "Bob");
    assert_eq!(summaries[1].excused_total, 2);
    assert_eq!(summaries[1].unexcused_total, 0);
    assert_eq!(summaries[1].grand_total, 2);
}

#[test]
fn empty_input_gives_empty_summary() {
    let summaries = calculate_absence_sum(&vec![]);
    assert!(summaries.is_empty());
}

#[test]
fn summaries_are_sorted_by_name() {
    let entries = vec![
        entry("Zoe", 67, Status::Excused),
        entry("Anna", 67, Status::Excused),
        entry("Max", 67, Status::Excused),
        entry("Anna", 67, Status::Unexcused),
    ];
    let summaries = calculate_absence_sum(&entries);
    let names: Vec<&str> = summaries.iter().map(|s| s.person_name.as_str()).collect();
    assert_eq!(names, vec!["Anna", "Max", "Zoe"]);
}

#[test]
fn fractional_school_hours_truncate_toward_zero() {
    // Two half-hours of 33 minutes each make 66 minutes: less than
    // one school-hour, so the total truncates to zero.
    let entries = vec![
        entry("Alice", 33, Status::Excused),
        entry("Alice", 33, Status::Excused),
    ];
    let summaries = calculate_absence_sum(&entries);
    assert_eq!(summaries[0].excused_total, 0);
    // One more minute completes the school-hour.
    let entries = vec![
        entry("Alice", 33, Status::Excused),
        entry("Alice", 34, Status::Excused),
    ];
    let summaries = calculate_absence_sum(&entries);
    assert_eq!(summaries[0].excused_total, 1);
}

#[test]
fn negative_minutes_truncate_toward_zero() {
    let entries = vec![entry("Alice", -100, Status::Excused)];
    let summaries = calculate_absence_sum(&entries);
    assert_eq!(summaries[0].excused_total, -1);
    assert_eq!(summaries[0].grand_total, -1);
}

#[test]
fn totals_are_conserved_up_to_truncation() {
    // Whole school-hours everywhere, so conservation is exact here:
    // 67 times the sum of the grand totals equals the sum of the
    // entry minutes.
    let entries = vec![
        entry("Alice", 67, Status::Excused),
        entry("Alice", 4 * 67, Status::Unexcused),
        entry("Bob", 2 * 67, Status::Excused),
    ];
    let total_minutes: i64 = entries.iter().map(|e| e.duration_minutes).sum();
    let summaries = calculate_absence_sum(&entries);
    let total_hours: i64 = summaries.iter().map(|s| s.grand_total as i64).sum();
    assert_eq!(67 * total_hours, total_minutes);
}

#[test]
fn aggregating_twice_gives_identical_summaries() {
    let entries = vec![
        entry("Mia", 268, Status::Unexcused),
        entry("Ben", 67, Status::Excused),
        entry("Mia", 33, Status::Excused),
    ];
    let first = calculate_absence_sum(&entries);
    let second = calculate_absence_sum(&entries);
    assert_eq!(first.len(), second.len());
    for (a, b) in first.iter().zip(second.iter()) {
        assert_eq!(a.person_name, b.person_name);
        assert_eq!(a.excused_total, b.excused_total);
        assert_eq!(a.unexcused_total, b.unexcused_total);
        assert_eq!(a.grand_total, b.grand_total);
    }
}

#[test]
fn summary_row_grand_total_is_the_sum() {
    let row = RecordAbsenceSum::new("Alice".to_string(), 3, 4);
    assert_eq!(row.person_name, "Alice");
    assert_eq!(row.excused_total, 3);
    assert_eq!(row.unexcused_total, 4);
    assert_eq!(row.grand_total, 7);
}

#[test]
fn statuses_are_summed_separately() {
    let entries = vec![
        entry("Alice", 67, Status::Excused),
        entry("Alice", 67, Status::Unexcused),
        entry("Alice", 67, Status::Excused),
    ];
    let summaries = calculate_absence_sum(&entries);
    assert_eq!(summaries[0].excused_total, 2);
    assert_eq!(summaries[0].unexcused_total, 1);
    assert_eq!(summaries[0].grand_total, 3);
}
