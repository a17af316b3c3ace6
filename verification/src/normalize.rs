//! The duration normalizer: classifies one raw absence-time field and
//! converts it to a duration in minutes, and maps the raw status text
//! to the two-valued excused/unexcused status.
//!
//! Classification is three-way:
//! - a field containing the range separator `" - "` and ending in `)`
//!   is a clock-time range: the duration is the end time minus the
//!   start time, in minutes;
//! - a field containing the separator but not ending in `)` is a date
//!   range: the duration is one school-day of minutes per calendar day
//!   from the start date through the end date inclusive;
//! - any other field counts as one whole school-day.

use vstd::prelude::*;
use crate::dates::{
    valid_date, day_number, date_valid, to_day_number, MIN_DAY_NUMBER, MAX_DAY_NUMBER,
};
use crate::scan::{
    digit_value, first_sep_from, first_time_from, first_date_from, find_sep, find_time, find_date,
    time_hour, time_minute, date_day, date_month, date_year,
};
use crate::{WHOLE_DAY_MINUTES, MAX_ENTRY_MINUTES};

verus! {

/// The two-valued classification of an absence record.
#[derive(Clone, Copy, Debug, PartialEq, Eq, Structural)]
pub enum Status {
    Excused,
    Unexcused,
}

/// One attendance line as the collaborators hand it in: the raw
/// absence-time field, the person's name, the raw status text, and an
/// opaque last-updated string that is passed through untouched.
#[derive(Clone, Debug)]
pub struct RawEntry {
    pub absence_field: String,
    pub person_name: String,
    pub status_text: String,
    pub updated_at: String,
}

/// One absence event with its duration normalized to minutes.
#[derive(Clone, Debug)]
pub struct NormalizedEntry {
    pub duration_minutes: i64,
    pub person_name: String,
    pub status: Status,
    pub updated_at: String,
}

/// A raw field that fits none of the expected shapes: carries the
/// offending raw text and the index of its row in the input sequence.
#[derive(Clone, Debug)]
pub struct ParseError {
    pub row: usize,
    pub field: String,
}

impl NormalizedEntry {
    /// Plain constructor; every field is set from the like-named
    /// argument.
    pub fn new(duration_minutes: i64, person_name: String, status: Status, updated_at: String) -> (
        r: Self)
        ensures
            r.duration_minutes == duration_minutes,
            r.person_name == person_name,
            r.status == status,
            r.updated_at == updated_at,
    {
        Self { duration_minutes, person_name, status, updated_at }
    }
}

/// Character `a` matches character `b` up to ASCII case (`b` is taken
/// lowercase).
pub open spec fn lower_matches(a: char, b: char) -> bool {
    a == b || ('A' <= a && a <= 'Z' && a as int + 32 == b as int)
}

/// The status text that marks an absence excused, in lowercase.
pub open spec fn excused_pattern() -> Seq<char> {
    "entschuldigt"@
}

/// The raw status text denotes an excused absence: it equals the
/// excused pattern up to ASCII case.
pub open spec fn is_excused_text(s: Seq<char>) -> bool {
    s.len() == excused_pattern().len() && forall|i: int|
        0 <= i < s.len() ==> lower_matches(s[i], #[trigger] excused_pattern()[i])
}

/// Status denoted by a raw status text: excused exactly for the
/// excused pattern (any case), unexcused for every other text.
pub open spec fn spec_status(s: Seq<char>) -> Status {
    if is_excused_text(s) {
        Status::Excused
    } else {
        Status::Unexcused
    }
}

/// Executable case-insensitive character match, equal to the
/// spec-level one.
fn char_lower_matches(a: char, b: char) -> (r: bool)
    ensures
        r == lower_matches(a, b),
{
    a == b || ('A' <= a && a <= 'Z' && (a as u32) + 32 == (b as u32))
}

/// Maps a raw status text to its status.
pub fn status_of(text: &str) -> (st: Status)
    ensures
        st == spec_status(text@),
{
    let pattern = "entschuldigt";
    proof {
        reveal_strlit("entschuldigt");
    }
    let n = text.unicode_len();
    if n != pattern.unicode_len() {
        return Status::Unexcused;
    }
    let mut i: usize = 0;
    while i < n
        invariant
            n == text@.len(),
            n == excused_pattern().len(),
            pattern@ == excused_pattern(),
            0 <= i <= n,
            forall|j: int| 0 <= j < i ==> lower_matches(text@[j], #[trigger] excused_pattern()[j]),
        decreases n - i,
    {
        if !char_lower_matches(text.get_char(i), pattern.get_char(i)) {
            return Status::Unexcused;
        }
        i = i + 1;
    }
    Status::Excused
}

/// Minutes past midnight denoted by the first clock-time token of one
/// side of a clock range, if that side holds a token with an hour
/// below 24 and a minute below 60; `None` otherwise.
pub open spec fn clock_side_minutes(side: Seq<char>) -> Option<int> {
    match first_time_from(side, 0) {
        Some(i) => {
            let h = time_hour(side, i);
            let mnt = time_minute(side, i);
            if h < 24 && mnt < 60 {
                Some(h * 60 + mnt)
            } else {
                None
            }
        },
        None => None,
    }
}

/// Day number denoted by the first date token of one side of a date
/// range, if that side holds a token that is a valid calendar date;
/// `None` otherwise.
pub open spec fn date_side_day_number(side: Seq<char>) -> Option<int> {
    match first_date_from(side, 0) {
        Some(i) => {
            let y = date_year(side, i);
            let m = date_month(side, i);
            let d = date_day(side, i);
            if valid_date(y, m, d) {
                Some(day_number(y, m, d))
            } else {
                None
            }
        },
        None => None,
    }
}

/// Duration in minutes denoted by a raw absence-time field, or `None`
/// where the field fits no expected shape:
/// - no range separator: one whole school-day of minutes;
/// - separator present and the field ends in `)`: end clock time minus
///   start clock time (a start after the end gives a negative
///   duration, as the raw export encodes it);
/// - separator present otherwise: days from start date through end
///   date inclusive, each counted as one whole school-day of minutes.
pub open spec fn spec_duration_minutes(s: Seq<char>) -> Option<int> {
    match first_sep_from(s, 0) {
        None => Some(WHOLE_DAY_MINUTES as int),
        Some(i) => {
            let left = s.subrange(0, i);
            let right = s.subrange(i + 3, s.len() as int);
            if s.len() > 0 && s[s.len() - 1] == ')' {
                match (clock_side_minutes(left), clock_side_minutes(right)) {
                    (Some(a), Some(b)) => Some(b - a),
                    _ => None,
                }
            } else {
                match (date_side_day_number(left), date_side_day_number(right)) {
                    (Some(a), Some(b)) => Some((b - a + 1) * (WHOLE_DAY_MINUTES as int)),
                    _ => None,
                }
            }
        },
    }
}

/// Scans one side of a clock range for its minutes past midnight.
fn scan_clock_side(side: &str) -> (r: Option<u32>)
    ensures
        match r {
            Some(v) => clock_side_minutes(side@) == Some(v as int) && v <= 1439,
            None => clock_side_minutes(side@) is None,
        },
{
    match find_time(side) {
        None => None,
        Some(i) => {
            let h = digit_value(side.get_char(i)) * 10 + digit_value(side.get_char(i + 1));
            let mnt = digit_value(side.get_char(i + 3)) * 10 + digit_value(side.get_char(i + 4));
            if h < 24 && mnt < 60 {
                Some(h * 60 + mnt)
            } else {
                None
            }
        },
    }
}

/// Scans one side of a date range for the day number of its date.
fn scan_date_side(side: &str) -> (r: Option<u64>)
    ensures
        match r {
            Some(v) => date_side_day_number(side@) == Some(v as int) && MIN_DAY_NUMBER <= v
                <= MAX_DAY_NUMBER,
            None => date_side_day_number(side@) is None,
        },
{
    match find_date(side) {
        None => None,
        Some(i) => {
            let d = digit_value(side.get_char(i)) * 10 + digit_value(side.get_char(i + 1));
            let m = digit_value(side.get_char(i + 3)) * 10 + digit_value(side.get_char(i + 4));
            let y = digit_value(side.get_char(i + 6)) * 1000 + digit_value(side.get_char(i + 7))
                * 100 + digit_value(side.get_char(i + 8)) * 10 + digit_value(side.get_char(i + 9));
            if date_valid(y, m, d) {
                Some(to_day_number(y, m, d))
            } else {
                None
            }
        },
    }
}

/// Classifies a raw absence-time field and converts it to minutes;
/// `None` exactly where the field fits no expected shape.
pub fn duration_minutes(field: &str) -> (r: Option<i64>)
    ensures
        match r {
            Some(d) => spec_duration_minutes(field@) == Some(d as int) && -MAX_ENTRY_MINUTES <= d
                <= MAX_ENTRY_MINUTES,
            None => spec_duration_minutes(field@) is None,
        },
{
    match find_sep(field) {
        None => Some(WHOLE_DAY_MINUTES as i64),
        Some(i) => {
            let n = field.unicode_len();
            let left = field.substring_char(0, i);
            let right = field.substring_char(i + 3, n);
            if field.get_char(n - 1) == ')' {
                match (scan_clock_side(left), scan_clock_side(right)) {
                    (Some(a), Some(b)) => Some(b as i64 - a as i64),
                    _ => None,
                }
            } else {
                match (scan_date_side(left), scan_date_side(right)) {
                    (Some(a), Some(b)) => Some(
                        (b as i64 - a as i64 + 1) * (WHOLE_DAY_MINUTES as i64),
                    ),
                    _ => None,
                }
            }
        },
    }
}

/// `e` is the normalization of `raw`: the duration the absence-time
/// field denotes, the status the status text denotes, and the name and
/// last-updated text passed through unchanged.
pub open spec fn entry_ok(raw: RawEntry, e: NormalizedEntry) -> bool {
    &&& spec_duration_minutes(raw.absence_field@) == Some(e.duration_minutes as int)
    &&& -MAX_ENTRY_MINUTES <= e.duration_minutes <= MAX_ENTRY_MINUTES
    &&& e.person_name@ == raw.person_name@
    &&& e.status == spec_status(raw.status_text@)
    &&& e.updated_at@ == raw.updated_at@
}

/// Normalizes one attendance line; `row` is the line's index in the
/// input sequence and is reported in the error when the absence-time
/// field fits no expected shape.
pub fn normalize_entry(raw: &RawEntry, row: usize) -> (r: Result<NormalizedEntry, ParseError>)
    ensures
        match r {
            Ok(e) => spec_duration_minutes(raw.absence_field@) is Some && entry_ok(*raw, e),
            Err(err) => spec_duration_minutes(raw.absence_field@) is None && err.row == row
                && err.field@ == raw.absence_field@,
        },
{
    match duration_minutes(raw.absence_field.as_str()) {
        Some(d) => Ok(
            NormalizedEntry::new(
                d,
                raw.person_name.clone(),
                status_of(raw.status_text.as_str()),
                raw.updated_at.clone(),
            ),
        ),
        None => Err(ParseError { row, field: raw.absence_field.clone() }),
    }
}

/// Normalizes a whole batch, fail-fast: the result is either one
/// normalized entry per input line, in order, or the error of the
/// first line whose absence-time field fits no expected shape — in
/// which case no partial output is handed out.
pub fn normalize_all(raws: &Vec<RawEntry>) -> (r: Result<Vec<NormalizedEntry>, ParseError>)
    ensures
        match r {
            Ok(es) => {
                &&& es@.len() == raws@.len()
                &&& forall|i: int|
                    0 <= i < raws@.len() ==> entry_ok(raws@[i], #[trigger] es@[i])
            },
            Err(err) => {
                &&& err.row < raws@.len()
                &&& spec_duration_minutes(raws@[err.row as int].absence_field@) is None
                &&& err.field@ == raws@[err.row as int].absence_field@
                &&& forall|i: int|
                    0 <= i < err.row ==> spec_duration_minutes(
                        #[trigger] raws@[i].absence_field@,
                    ) is Some
            },
        },
{
    let mut out: Vec<NormalizedEntry> = Vec::new();
    let n = raws.len();
    let mut i: usize = 0;
    while i < n
        invariant
            n == raws@.len(),
            0 <= i <= n,
            out@.len() == i,
            forall|j: int| 0 <= j < i ==> entry_ok(raws@[j], #[trigger] out@[j]),
        decreases n - i,
    {
        match normalize_entry(&raws[i], i) {
            Ok(e) => {
                out.push(e);
            },
            Err(err) => {
                assert forall|j: int| 0 <= j < i implies spec_duration_minutes(
                    #[trigger] raws@[j].absence_field@,
                ) is Some by {
                    assert(entry_ok(raws@[j], out@[j]));
                }
                return Err(err);
            },
        }
        i = i + 1;
    }
    Ok(out)
}

} // verus!
