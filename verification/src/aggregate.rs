//! The absence aggregator: groups normalized entries by person and
//! sums durations per excused/unexcused status.
//!
//! Summaries are keyed by person name, one summary per distinct name,
//! ordered lexicographically ascending by the names' character values.
//! Totals are reported in whole school-hours: the per-person,
//! per-status minute sums are divided by the school-hour length and
//! truncated toward zero.

use vstd::prelude::*;
use vstd::arithmetic::div_mod::lemma_div_is_ordered;
use crate::normalize::{NormalizedEntry, Status};
use crate::{SCHOOL_HOUR_MINUTES, MAX_TOTAL_MINUTES};

verus! {

/// Aggregated totals for one person, in whole school-hours.
#[derive(Clone, Debug)]
pub struct RecordAbsenceSum {
    pub person_name: String,
    pub excused_total: i32,
    pub unexcused_total: i32,
    pub grand_total: i32,
}

impl RecordAbsenceSum {
    /// Builds one summary row; the grand total is the sum of the two
    /// per-status totals.
    pub fn new(person_name: String, excused_total: i32, unexcused_total: i32) -> (r: Self)
        requires
            i32::MIN <= excused_total + unexcused_total <= i32::MAX,
        ensures
            r.person_name == person_name,
            r.excused_total == excused_total,
            r.unexcused_total == unexcused_total,
            r.grand_total == excused_total + unexcused_total,
    {
        let grand_total = excused_total + unexcused_total;
        Self { person_name, excused_total, unexcused_total, grand_total }
    }
}

/// Strict lexicographic order on character sequences, by character
/// value: the ascending order in which the summary rows are emitted.
pub open spec fn lex_lt(a: Seq<char>, b: Seq<char>) -> bool
    decreases a.len(),
{
    if b.len() == 0 {
        false
    } else if a.len() == 0 {
        true
    } else if (a[0] as int) < (b[0] as int) {
        true
    } else if (a[0] as int) > (b[0] as int) {
        false
    } else {
        lex_lt(a.drop_first(), b.drop_first())
    }
}

/// No sequence is lexicographically below itself.
pub proof fn lemma_lex_irreflexive(a: Seq<char>)
    ensures
        !lex_lt(a, a),
    decreases a.len(),
{
    if a.len() > 0 {
        lemma_lex_irreflexive(a.drop_first());
    }
}

/// Two sequences neither of which is below the other are equal.
pub proof fn lemma_lex_connected(a: Seq<char>, b: Seq<char>)
    requires
        !lex_lt(a, b),
        !lex_lt(b, a),
    ensures
        a == b,
    decreases a.len(),
{
    if a.len() == 0 {
        assert(b.len() == 0);
        assert(a =~= b);
    } else {
        assert(b.len() > 0);
        assert(a[0] == b[0]);
        lemma_lex_connected(a.drop_first(), b.drop_first());
        assert forall|i: int| 0 <= i < a.len() implies a[i] == b[i] by {
            if i > 0 {
                assert(a[i] == a.drop_first()[i - 1]);
                assert(b[i] == b.drop_first()[i - 1]);
            }
        }
        assert(a =~= b);
    }
}

/// The order is asymmetric.
pub proof fn lemma_lex_asymmetric(a: Seq<char>, b: Seq<char>)
    requires
        lex_lt(a, b),
    ensures
        !lex_lt(b, a),
    decreases a.len(),
{
    if a.len() > 0 && b.len() > 0 && a[0] == b[0] {
        lemma_lex_asymmetric(a.drop_first(), b.drop_first());
    }
}

/// The order is transitive.
pub proof fn lemma_lex_transitive(a: Seq<char>, b: Seq<char>, c: Seq<char>)
    requires
        lex_lt(a, b),
        lex_lt(b, c),
    ensures
        lex_lt(a, c),
    decreases a.len(),
{
    if a.len() > 0 && b.len() > 0 && c.len() > 0 && a[0] == b[0] && b[0] == c[0] {
        lemma_lex_transitive(a.drop_first(), b.drop_first(), c.drop_first());
    }
}

/// Compares two strings in the lexicographic order.
fn str_lt(a: &str, b: &str) -> (r: bool)
    ensures
        r == lex_lt(a@, b@),
{
    let alen = a.unicode_len();
    let blen = b.unicode_len();
    let common = if alen < blen {
        alen
    } else {
        blen
    };
    let mut i: usize = 0;
    proof {
        assert(a@.skip(0) =~= a@);
        assert(b@.skip(0) =~= b@);
    }
    while i < common
        invariant
            alen == a@.len(),
            blen == b@.len(),
            common == if alen < blen {
                alen
            } else {
                blen
            },
            0 <= i <= common,
            lex_lt(a@, b@) == lex_lt(a@.skip(i as int), b@.skip(i as int)),
        decreases common - i,
    {
        let ca = a.get_char(i);
        let cb = b.get_char(i);
        if (ca as u32) < (cb as u32) {
            return true;
        }
        if (ca as u32) > (cb as u32) {
            return false;
        }
        proof {
            assert(a@.skip(i as int).drop_first() =~= a@.skip(i as int + 1));
            assert(b@.skip(i as int).drop_first() =~= b@.skip(i as int + 1));
        }
        i = i + 1;
    }
    proof {
        if alen < blen {
            assert(a@.skip(i as int).len() == 0);
        } else {
            assert(b@.skip(i as int).len() == 0);
        }
    }
    alen < blen
}

/// Some string of `names` reads `x`.
pub open spec fn vec_has_name(names: Seq<String>, x: Seq<char>) -> bool {
    exists|j: int| 0 <= j < names.len() && names[j]@ == x
}

/// Some entry of `s` belongs to a person named `x`.
pub open spec fn has_person(s: Seq<NormalizedEntry>, x: Seq<char>) -> bool {
    exists|i: int| 0 <= i < s.len() && s[i].person_name@ == x
}

/// The strings of `names` are strictly ascending in the lexicographic
/// order (so in particular pairwise distinct).
pub open spec fn strictly_sorted(names: Seq<String>) -> bool {
    forall|i: int, j: int| 0 <= i < j < names.len() ==> lex_lt(names[i]@, names[j]@)
}

/// Inserts `x` into the sorted name list unless a string reading the
/// same is already there; sortedness and membership-but-for-`x` are
/// kept.
fn insert_name(names: &mut Vec<String>, x: &String)
    requires
        strictly_sorted(old(names)@),
    ensures
        strictly_sorted(final(names)@),
        forall|nm: Seq<char>|
            #[trigger] vec_has_name(final(names)@, nm) <==> (vec_has_name(old(names)@, nm) || nm
                == x@),
{
    let n = names.len();
    let mut p: usize = 0;
    while p < n && str_lt(names[p].as_str(), x.as_str())
        invariant
            n == names@.len(),
            0 <= p <= n,
            strictly_sorted(names@),
            names@ == old(names)@,
            forall|j: int| 0 <= j < p ==> lex_lt(#[trigger] names@[j]@, x@),
        decreases n - p,
    {
        p = p + 1;
    }
    if p < n && names[p] == *x {
        proof {
            let ghost old_names = names@;
            assert forall|nm: Seq<char>|
                #[trigger] vec_has_name(old_names, nm) <==> (vec_has_name(old_names, nm) || nm
                    == x@) by {
                if nm == x@ {
                    assert(old_names[p as int]@ == nm);
                    assert(vec_has_name(old_names, nm));
                }
            }
        }
        return ;
    }
    proof {
        if p < n {
            assert(!lex_lt(names@[p as int]@, x@));
            if !lex_lt(x@, names@[p as int]@) {
                lemma_lex_connected(x@, names@[p as int]@);
                assert(false);
            }
        }
    }
    let ghost before = names@;
    names.insert(p, x.clone());
    proof {
        assert(names@ == before.insert(p as int, *x));
        assert forall|i: int, j: int| 0 <= i < j < names@.len() implies lex_lt(
            names@[i]@,
            names@[j]@,
        ) by {
            let pi = p as int;
            if i < pi && j < pi {
            } else if i < pi && j == pi {
                assert(names@[i]@ == before[i]@);
                assert(lex_lt(before[i]@, x@));
            } else if i < pi && j > pi {
                assert(lex_lt(before[i]@, before[j - 1]@));
            } else if i == pi && j > pi {
                assert(lex_lt(x@, before[pi]@));
                if j - 1 > pi {
                    lemma_lex_transitive(x@, before[pi]@, before[j - 1]@);
                }
            } else {
                assert(lex_lt(before[i - 1]@, before[j - 1]@));
            }
        }
        assert forall|nm: Seq<char>|
            #[trigger] vec_has_name(names@, nm) <==> (vec_has_name(before, nm) || nm == x@) by {
            if vec_has_name(names@, nm) {
                let j = choose|j: int| 0 <= j < names@.len() && names@[j]@ == nm;
                if j < p {
                    assert(before[j]@ == nm);
                } else if j == p {
                    assert(nm == x@);
                } else {
                    assert(before[j - 1]@ == nm);
                }
            }
            if vec_has_name(before, nm) {
                let j = choose|j: int| 0 <= j < before.len() && before[j]@ == nm;
                if j < p {
                    assert(names@[j]@ == nm);
                } else {
                    assert(names@[j + 1]@ == nm);
                }
            }
            if nm == x@ {
                assert(names@[p as int]@ == nm);
            }
        }
    }
}

/// Collects the distinct person names of `records`, sorted ascending.
fn sorted_names(records: &Vec<NormalizedEntry>) -> (names: Vec<String>)
    ensures
        strictly_sorted(names@),
        forall|nm: Seq<char>| #[trigger] vec_has_name(names@, nm) <==> has_person(records@, nm),
{
    let n = records.len();
    let mut names: Vec<String> = Vec::new();
    let mut k: usize = 0;
    while k < n
        invariant
            n == records@.len(),
            0 <= k <= n,
            strictly_sorted(names@),
            forall|nm: Seq<char>|
                #[trigger] vec_has_name(names@, nm) <==> has_person(records@.take(k as int), nm),
        decreases n - k,
    {
        let ghost prev = names@;
        insert_name(&mut names, &records[k].person_name);
        proof {
            let ki = k as int;
            assert forall|nm: Seq<char>|
                #[trigger] vec_has_name(names@, nm) <==> has_person(
                    records@.take(ki + 1),
                    nm,
                ) by {
                if vec_has_name(names@, nm) {
                    if vec_has_name(prev, nm) {
                        let i = choose|i: int|
                            0 <= i < ki && (#[trigger] records@.take(ki)[i]).person_name@ == nm;
                        assert(records@.take(ki + 1)[i].person_name@ == nm);
                    } else {
                        assert(nm == records@[ki].person_name@);
                        assert(records@.take(ki + 1)[ki].person_name@ == nm);
                    }
                }
                if has_person(records@.take(ki + 1), nm) {
                    let i = choose|i: int|
                        0 <= i < ki + 1 && (#[trigger] records@.take(ki + 1)[i]).person_name@
                            == nm;
                    if i < ki {
                        assert(records@.take(ki)[i].person_name@ == nm);
                        assert(vec_has_name(prev, nm));
                    } else {
                        assert(nm == records@[ki].person_name@);
                    }
                }
            }
        }
        k = k + 1;
    }
    proof {
        assert(records@.take(n as int) =~= records@);
    }
    names
}

/// The minutes entry `e` contributes to the sum for person `name` and
/// status `st`: its duration if it matches both, else nothing.
pub open spec fn entry_part(e: NormalizedEntry, name: Seq<char>, st: Status) -> int {
    if e.person_name@ == name && e.status == st {
        e.duration_minutes as int
    } else {
        0
    }
}

/// Sum of the durations of the entries of `s` for person `name` with
/// status `st`, in minutes.
pub open spec fn dur_sum(s: Seq<NormalizedEntry>, name: Seq<char>, st: Status) -> int
    decreases s.len(),
{
    if s.len() == 0 {
        0
    } else {
        dur_sum(s.drop_last(), name, st) + entry_part(s.last(), name, st)
    }
}

/// Sum of the durations of all entries of `s`, in minutes.
pub open spec fn total_dur(s: Seq<NormalizedEntry>) -> int
    decreases s.len(),
{
    if s.len() == 0 {
        0
    } else {
        total_dur(s.drop_last()) + s.last().duration_minutes as int
    }
}

/// Sum of the magnitudes of the durations of all entries of `s`; it
/// bounds every partial and filtered sum.
pub open spec fn abs_dur(s: Seq<NormalizedEntry>) -> int
    decreases s.len(),
{
    if s.len() == 0 {
        0
    } else {
        abs_dur(s.drop_last()) + if s.last().duration_minutes >= 0 {
            s.last().duration_minutes as int
        } else {
            -(s.last().duration_minutes as int)
        }
    }
}

/// Minutes converted to whole school-hours, truncated toward zero.
pub open spec fn trunc_hours(m: int) -> int {
    if m >= 0 {
        m / (SCHOOL_HOUR_MINUTES as int)
    } else {
        -((-m) / (SCHOOL_HOUR_MINUTES as int))
    }
}

/// One step of a prefix: taking one more element appends it at the
/// end.
proof fn lemma_take_step(s: Seq<NormalizedEntry>, k: int)
    requires
        0 <= k < s.len(),
    ensures
        s.take(k + 1).drop_last() == s.take(k),
        s.take(k + 1).last() == s[k],
{
    assert(s.take(k + 1).drop_last() =~= s.take(k));
}

/// Every filtered sum, and the total, lies within the magnitude sum.
proof fn lemma_abs_dur_bounds(s: Seq<NormalizedEntry>, name: Seq<char>, st: Status)
    ensures
        -abs_dur(s) <= dur_sum(s, name, st) <= abs_dur(s),
        -abs_dur(s) <= total_dur(s) <= abs_dur(s),
        0 <= abs_dur(s),
    decreases s.len(),
{
    if s.len() > 0 {
        lemma_abs_dur_bounds(s.drop_last(), name, st);
    }
}

/// The magnitude sum of a prefix is at most that of the whole.
proof fn lemma_abs_dur_take_le(s: Seq<NormalizedEntry>, k: int)
    requires
        0 <= k <= s.len(),
    ensures
        abs_dur(s.take(k)) <= abs_dur(s),
    decreases s.len() - k,
{
    if k == s.len() {
        assert(s.take(k) =~= s);
    } else {
        lemma_take_step(s, k);
        lemma_abs_dur_take_le(s, k + 1);
    }
}

/// Sums the minutes of the entries for person `name` with status `st`.
fn sum_minutes(records: &Vec<NormalizedEntry>, name: &String, st: Status) -> (r: i64)
    requires
        abs_dur(records@) <= MAX_TOTAL_MINUTES,
    ensures
        r == dur_sum(records@, name@, st),
        -MAX_TOTAL_MINUTES <= r <= MAX_TOTAL_MINUTES,
{
    let n = records.len();
    let mut acc: i64 = 0;
    let mut k: usize = 0;
    proof {
        assert(records@.take(0) =~= Seq::<NormalizedEntry>::empty());
        lemma_abs_dur_bounds(records@, name@, st);
    }
    while k < n
        invariant
            n == records@.len(),
            0 <= k <= n,
            abs_dur(records@) <= MAX_TOTAL_MINUTES,
            acc == dur_sum(records@.take(k as int), name@, st),
            -abs_dur(records@.take(k as int)) <= acc <= abs_dur(records@.take(k as int)),
            abs_dur(records@.take(k as int)) <= abs_dur(records@),
            0 <= abs_dur(records@),
        decreases n - k,
    {
        let ki: Ghost<int> = Ghost(k as int);
        proof {
            lemma_take_step(records@, ki@);
            lemma_abs_dur_take_le(records@, ki@ + 1);
            lemma_abs_dur_bounds(records@.take(ki@), name@, st);
        }
        if records[k].person_name == *name && records[k].status == st {
            acc = acc + records[k].duration_minutes;
        }
        proof {
            assert(dur_sum(records@.take(ki@ + 1), name@, st) == dur_sum(
                records@.take(ki@),
                name@,
                st,
            ) + entry_part(records@[ki@], name@, st));
        }
        k = k + 1;
    }
    proof {
        assert(records@.take(n as int) =~= records@);
        lemma_abs_dur_bounds(records@, name@, st);
    }
    acc
}

/// Converts minutes to whole school-hours, truncated toward zero.
fn trunc_to_hours(m: i64) -> (r: i64)
    requires
        -MAX_TOTAL_MINUTES <= m <= MAX_TOTAL_MINUTES,
    ensures
        r == trunc_hours(m as int),
        -(MAX_TOTAL_MINUTES as int / SCHOOL_HOUR_MINUTES as int) <= r <= MAX_TOTAL_MINUTES as int
            / SCHOOL_HOUR_MINUTES as int,
{
    if m >= 0 {
        let q = (m as u64) / (SCHOOL_HOUR_MINUTES as u64);
        proof {
            lemma_div_is_ordered(m as int, MAX_TOTAL_MINUTES as int, SCHOOL_HOUR_MINUTES as int);
        }
        q as i64
    } else {
        let q = ((-m) as u64) / (SCHOOL_HOUR_MINUTES as u64);
        proof {
            lemma_div_is_ordered(-m as int, MAX_TOTAL_MINUTES as int, SCHOOL_HOUR_MINUTES as int);
        }
        -(q as i64)
    }
}

/// The summary row `row` carries the truncated per-status school-hour
/// totals of its person over `s`, and their sum as grand total.
pub open spec fn row_ok(s: Seq<NormalizedEntry>, row: RecordAbsenceSum) -> bool {
    &&& row.excused_total == trunc_hours(dur_sum(s, row.person_name@, Status::Excused))
    &&& row.unexcused_total == trunc_hours(dur_sum(s, row.person_name@, Status::Unexcused))
    &&& row.grand_total == row.excused_total + row.unexcused_total
}

/// Some row of `out` belongs to a person named `x`.
pub open spec fn out_has_name(out: Seq<RecordAbsenceSum>, x: Seq<char>) -> bool {
    exists|j: int| 0 <= j < out.len() && out[j].person_name@ == x
}

/// `out` is the summary of `s`: rows strictly sorted by name, one row
/// per distinct person of `s` and none besides, each row carrying that
/// person's truncated per-status totals. Every entry of `s`
/// contributes to exactly one row: the one of its person.
pub open spec fn summarizes(s: Seq<NormalizedEntry>, out: Seq<RecordAbsenceSum>) -> bool {
    &&& forall|i: int, j: int|
        0 <= i < j < out.len() ==> lex_lt(out[i].person_name@, out[j].person_name@)
    &&& forall|i: int| 0 <= i < out.len() ==> row_ok(s, #[trigger] out[i])
    &&& forall|i: int| 0 <= i < out.len() ==> has_person(s, #[trigger] out[i].person_name@)
    &&& forall|i: int| 0 <= i < s.len() ==> out_has_name(out, #[trigger] s[i].person_name@)
}

/// Aggregates normalized entries into one summary row per distinct
/// person, sorted ascending by name. The cap on the magnitude sum is
/// what keeps the school-hour totals within `i32`.
pub fn calculate_absence_sum(records: &Vec<NormalizedEntry>) -> (r: Vec<RecordAbsenceSum>)
    requires
        abs_dur(records@) <= MAX_TOTAL_MINUTES,
    ensures
        summarizes(records@, r@),
{
    let names = sorted_names(records);
    let mut out: Vec<RecordAbsenceSum> = Vec::new();
    let m = names.len();
    let mut idx: usize = 0;
    while idx < m
        invariant
            m == names@.len(),
            0 <= idx <= m,
            abs_dur(records@) <= MAX_TOTAL_MINUTES,
            strictly_sorted(names@),
            forall|nm: Seq<char>|
                #[trigger] vec_has_name(names@, nm) <==> has_person(records@, nm),
            out@.len() == idx,
            forall|j: int| 0 <= j < idx ==> (#[trigger] out@[j]).person_name@ == names@[j]@,
            forall|j: int| 0 <= j < idx ==> row_ok(records@, #[trigger] out@[j]),
        decreases m - idx,
    {
        let nm = &names[idx];
        let exc = sum_minutes(records, nm, Status::Excused);
        let unexc = sum_minutes(records, nm, Status::Unexcused);
        let exc_h = trunc_to_hours(exc);
        let unexc_h = trunc_to_hours(unexc);
        let row = RecordAbsenceSum::new(nm.clone(), exc_h as i32, unexc_h as i32);
        out.push(row);
        idx = idx + 1;
    }
    proof {
        assert forall|i: int| 0 <= i < out@.len() implies has_person(
            records@,
            (#[trigger] out@[i]).person_name@,
        ) by {
            assert(vec_has_name(names@, out@[i].person_name@));
        }
        assert forall|i: int| 0 <= i < records@.len() implies out_has_name(
            out@,
            (#[trigger] records@[i]).person_name@,
        ) by {
            let nm = records@[i].person_name@;
            assert(has_person(records@, nm));
            assert(vec_has_name(names@, nm));
            let j = choose|j: int| 0 <= j < names@.len() && names@[j]@ == nm;
            assert(out@[j].person_name@ == nm);
        }
    }
    out
}

} // verus!
