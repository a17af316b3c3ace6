//! End-to-end test: raw attendance lines through normalization and
//! aggregation.

use absences::aggregate::calculate_absence_sum;
use absences::normalize::{normalize_all, RawEntry};

fn raw(absence: &str, name: &str, status: &str) -> RawEntry {
    RawEntry {
        absence_field: absence.to_string(),
        person_name: name.to_string(),
        status_text: status.to_string(),
        updated_at: "01.02.2024".to_string(),
    }
}

#[test]
fn raw_rows_to_summary() {
    let rows = vec![
        raw("Mo 08:00 Uhr - 09:07 Uhr)", "Alice", "entschuldigt"),
        raw("01.03.2024 - 03.03.2024", "Bob", "unentschuldigt"),
        raw("ganzt\u{e4}gig", "Alice", "unentschuldigt"),
        raw("Di 10:00 Uhr - 12:14 Uhr)", "Bob", "Entschuldigt"),
    ];
    let entries = normalize_all(&rows).expect("all rows are well-formed");
    let summaries = calculate_absence_sum(&entries);
    assert_eq!(summaries.len(), 2);
    // Alice: 67 excused minutes (1 h), one whole day unexcused (4 h).
    assert_eq!(summaries[0].person_name, "Alice");
    assert_eq!(summaries[0].excused_total, 1);
    assert_eq!(summaries[0].unexcused_total, 4);
    assert_eq!(summaries[0].grand_total, 5);
    // Bob: 134 excused minutes (2 h), three whole days unexcused (12 h).
    assert_eq!(summaries[1].person_name, "Bob");
    assert_eq!(summaries[1].excused_total, 2);
    assert_eq!(summaries[1].unexcused_total, 12);
    assert_eq!(summaries[1].grand_total, 14);
}
