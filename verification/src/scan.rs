//! Character-level scanning over the raw absence-time field.
//!
//! The absence-time field is classified structurally: the library scans
//! for the literal range separator `" - "` and for clock-time (`HH:MM`)
//! and date (`DD.MM.YYYY`) shaped tokens, never by fixed offsets.

use vstd::prelude::*;

verus! {

/// A decimal digit character.
pub open spec fn is_digit(c: char) -> bool {
    '0' <= c && c <= '9'
}

/// The numeric value of a decimal digit character.
pub open spec fn digit_val(c: char) -> int {
    c as int - '0' as int
}

/// Executable digit test, equal to the spec-level one.
pub fn digit(c: char) -> (r: bool)
    ensures
        r == is_digit(c),
{
    '0' <= c && c <= '9'
}

/// Executable digit value, equal to the spec-level one.
pub fn digit_value(c: char) -> (r: u32)
    requires
        is_digit(c),
    ensures
        r == digit_val(c),
        r <= 9,
{
    (c as u32) - ('0' as u32)
}

/// The range separator `" - "` starts at position `i` of `s`.
pub open spec fn sep_at(s: Seq<char>, i: int) -> bool {
    &&& 0 <= i
    &&& i + 3 <= s.len()
    &&& s[i] == ' '
    &&& s[i + 1] == '-'
    &&& s[i + 2] == ' '
}

/// Position of the first range separator at or after `i`, if any.
pub open spec fn first_sep_from(s: Seq<char>, i: int) -> Option<int>
    decreases s.len() - i when 0 <= i
{
    if i + 3 > s.len() {
        None
    } else if sep_at(s, i) {
        Some(i)
    } else {
        first_sep_from(s, i + 1)
    }
}

/// A clock-time token `HH:MM` (two digits, a colon, two digits)
/// starts at position `i` of `s`.
pub open spec fn time_at(s: Seq<char>, i: int) -> bool {
    &&& 0 <= i
    &&& i + 5 <= s.len()
    &&& is_digit(s[i])
    &&& is_digit(s[i + 1])
    &&& s[i + 2] == ':'
    &&& is_digit(s[i + 3])
    &&& is_digit(s[i + 4])
}

/// Position of the first clock-time token at or after `i`, if any.
pub open spec fn first_time_from(s: Seq<char>, i: int) -> Option<int>
    decreases s.len() - i when 0 <= i
{
    if i + 5 > s.len() {
        None
    } else if time_at(s, i) {
        Some(i)
    } else {
        first_time_from(s, i + 1)
    }
}

/// Hour field of the clock-time token at position `i`.
pub open spec fn time_hour(s: Seq<char>, i: int) -> int {
    digit_val(s[i]) * 10 + digit_val(s[i + 1])
}

/// Minute field of the clock-time token at position `i`.
pub open spec fn time_minute(s: Seq<char>, i: int) -> int {
    digit_val(s[i + 3]) * 10 + digit_val(s[i + 4])
}

/// A date token `DD.MM.YYYY` (day-month-year order) starts at
/// position `i` of `s`.
pub open spec fn date_at(s: Seq<char>, i: int) -> bool {
    &&& 0 <= i
    &&& i + 10 <= s.len()
    &&& is_digit(s[i])
    &&& is_digit(s[i + 1])
    &&& s[i + 2] == '.'
    &&& is_digit(s[i + 3])
    &&& is_digit(s[i + 4])
    &&& s[i + 5] == '.'
    &&& is_digit(s[i + 6])
    &&& is_digit(s[i + 7])
    &&& is_digit(s[i + 8])
    &&& is_digit(s[i + 9])
}

/// Position of the first date token at or after `i`, if any.
pub open spec fn first_date_from(s: Seq<char>, i: int) -> Option<int>
    decreases s.len() - i when 0 <= i
{
    if i + 10 > s.len() {
        None
    } else if date_at(s, i) {
        Some(i)
    } else {
        first_date_from(s, i + 1)
    }
}

/// Day field of the date token at position `i`.
pub open spec fn date_day(s: Seq<char>, i: int) -> int {
    digit_val(s[i]) * 10 + digit_val(s[i + 1])
}

/// Month field of the date token at position `i`.
pub open spec fn date_month(s: Seq<char>, i: int) -> int {
    digit_val(s[i + 3]) * 10 + digit_val(s[i + 4])
}

/// Year field of the date token at position `i`.
pub open spec fn date_year(s: Seq<char>, i: int) -> int {
    digit_val(s[i + 6]) * 1000 + digit_val(s[i + 7]) * 100 + digit_val(s[i + 8]) * 10
        + digit_val(s[i + 9])
}

/// Finds the first range separator of `s`.
pub fn find_sep(s: &str) -> (r: Option<usize>)
    ensures
        match r {
            Some(i) => first_sep_from(s@, 0) == Some(i as int) && sep_at(s@, i as int) && i
                <= usize::MAX - 3,
            None => first_sep_from(s@, 0) is None,
        },
{
    let n = s.unicode_len();
    if n < 3 {
        return None;
    }
    let mut i: usize = 0;
    while i <= n - 3
        invariant
            n == s@.len(),
            3 <= n,
            0 <= i <= n,
            first_sep_from(s@, 0) == first_sep_from(s@, i as int),
        decreases n - i,
    {
        if s.get_char(i) == ' ' && s.get_char(i + 1) == '-' && s.get_char(i + 2) == ' ' {
            assert(sep_at(s@, i as int));
            return Some(i);
        }
        assert(!sep_at(s@, i as int));
        i = i + 1;
    }
    None
}

/// Finds the first clock-time token of `s`.
pub fn find_time(s: &str) -> (r: Option<usize>)
    ensures
        match r {
            Some(i) => first_time_from(s@, 0) == Some(i as int) && time_at(s@, i as int) && i
                <= usize::MAX - 5,
            None => first_time_from(s@, 0) is None,
        },
{
    let n = s.unicode_len();
    if n < 5 {
        return None;
    }
    let mut i: usize = 0;
    while i <= n - 5
        invariant
            n == s@.len(),
            5 <= n,
            0 <= i <= n,
            first_time_from(s@, 0) == first_time_from(s@, i as int),
        decreases n - i,
    {
        if digit(s.get_char(i)) && digit(s.get_char(i + 1)) && s.get_char(i + 2) == ':' && digit(
            s.get_char(i + 3),
        ) && digit(s.get_char(i + 4)) {
            assert(time_at(s@, i as int));
            return Some(i);
        }
        assert(!time_at(s@, i as int));
        i = i + 1;
    }
    None
}

/// Finds the first date token of `s`.
pub fn find_date(s: &str) -> (r: Option<usize>)
    ensures
        match r {
            Some(i) => first_date_from(s@, 0) == Some(i as int) && date_at(s@, i as int) && i
                <= usize::MAX - 10,
            None => first_date_from(s@, 0) is None,
        },
{
    let n = s.unicode_len();
    if n < 10 {
        return None;
    }
    let mut i: usize = 0;
    while i <= n - 10
        invariant
            n == s@.len(),
            10 <= n,
            0 <= i <= n,
            first_date_from(s@, 0) == first_date_from(s@, i as int),
        decreases n - i,
    {
        if digit(s.get_char(i)) && digit(s.get_char(i + 1)) && s.get_char(i + 2) == '.' && digit(
            s.get_char(i + 3),
        ) && digit(s.get_char(i + 4)) && s.get_char(i + 5) == '.' && digit(s.get_char(i + 6))
            && digit(s.get_char(i + 7)) && digit(s.get_char(i + 8)) && digit(s.get_char(i + 9)) {
            assert(date_at(s@, i as int));
            return Some(i);
        }
        assert(!date_at(s@, i as int));
        i = i + 1;
    }
    None
}

} // verus!
