//! Laws of the aggregation: no entry is dropped or double-counted,
//! and the summary of a batch is unique, so aggregating twice gives
//! identical summaries.

use vstd::prelude::*;
use vstd::arithmetic::div_mod::{lemma_fundamental_div_mod, lemma_mod_division_less_than_divisor};
use crate::aggregate::{
    RecordAbsenceSum, dur_sum, entry_part, total_dur, trunc_hours, row_ok, out_has_name,
    has_person, summarizes, lex_lt, lemma_lex_irreflexive, lemma_lex_asymmetric,
};
use crate::normalize::{NormalizedEntry, Status};
use crate::SCHOOL_HOUR_MINUTES;

verus! {

/// Sum over the rows of `out` of the per-row minute sums over `s`:
/// each row contributes its person's excused and unexcused minutes.
pub open spec fn rows_minutes(s: Seq<NormalizedEntry>, out: Seq<RecordAbsenceSum>) -> int
    decreases out.len(),
{
    if out.len() == 0 {
        0
    } else {
        rows_minutes(s, out.drop_last()) + dur_sum(s, out.last().person_name@, Status::Excused)
            + dur_sum(s, out.last().person_name@, Status::Unexcused)
    }
}

/// Sum of the grand totals of the rows of `out`, in school-hours.
pub open spec fn sum_grand_totals(out: Seq<RecordAbsenceSum>) -> int
    decreases out.len(),
{
    if out.len() == 0 {
        0
    } else {
        sum_grand_totals(out.drop_last()) + out.last().grand_total
    }
}

/// The persons of the rows of `out` are pairwise distinct.
pub open spec fn distinct_names(out: Seq<RecordAbsenceSum>) -> bool {
    forall|i: int, j: int|
        0 <= i < j < out.len() ==> (#[trigger] out[i]).person_name@ != (
        #[trigger] out[j]).person_name@
}

proof fn lemma_rows_minutes_empty(s: Seq<NormalizedEntry>, out: Seq<RecordAbsenceSum>)
    requires
        s.len() == 0,
    ensures
        rows_minutes(s, out) == 0,
    decreases out.len(),
{
    if out.len() > 0 {
        lemma_rows_minutes_empty(s, out.drop_last());
    }
}

proof fn lemma_rows_minutes_step(s: Seq<NormalizedEntry>, out: Seq<RecordAbsenceSum>)
    requires
        s.len() > 0,
        distinct_names(out),
    ensures
        rows_minutes(s, out) == rows_minutes(s.drop_last(), out) + if out_has_name(
            out,
            s.last().person_name@,
        ) {
            s.last().duration_minutes as int
        } else {
            0int
        },
    decreases out.len(),
{
    let e = s.last();
    let d = e.duration_minutes as int;
    if out.len() == 0 {
        assert(!out_has_name(out, e.person_name@));
    } else {
        let prefix = out.drop_last();
        assert forall|i: int, j: int| 0 <= i < j < prefix.len() implies (
        #[trigger] prefix[i]).person_name@ != (#[trigger] prefix[j]).person_name@ by {
            assert(prefix[i] == out[i]);
            assert(prefix[j] == out[j]);
        }
        lemma_rows_minutes_step(s, prefix);
        let nm = out.last().person_name@;
        assert(dur_sum(s, nm, Status::Excused) == dur_sum(s.drop_last(), nm, Status::Excused)
            + entry_part(e, nm, Status::Excused));
        assert(dur_sum(s, nm, Status::Unexcused) == dur_sum(s.drop_last(), nm, Status::Unexcused)
            + entry_part(e, nm, Status::Unexcused));
        assert(entry_part(e, nm, Status::Excused) + entry_part(e, nm, Status::Unexcused) == if e
            .person_name@ == nm {
            d
        } else {
            0int
        }) by {
            match e.status {
                Status::Excused => {},
                Status::Unexcused => {},
            }
        }
        if e.person_name@ == nm {
            assert forall|j: int| 0 <= j < prefix.len() implies (#[trigger] prefix[j]).person_name@
                != e.person_name@ by {
                assert(prefix[j] == out[j]);
                assert(out[j].person_name@ != out[out.len() - 1].person_name@);
            }
            assert(!out_has_name(prefix, e.person_name@));
            assert(out_has_name(out, e.person_name@)) by {
                assert(out[out.len() - 1].person_name@ == e.person_name@);
            }
        } else {
            if out_has_name(out, e.person_name@) {
                let j = choose|j: int| 0 <= j < out.len() && out[j].person_name@ == e.person_name@;
                assert(j < out.len() - 1);
                assert(prefix[j] == out[j]);
                assert(out_has_name(prefix, e.person_name@));
            }
            if out_has_name(prefix, e.person_name@) {
                let j = choose|j: int|
                    0 <= j < prefix.len() && prefix[j].person_name@ == e.person_name@;
                assert(out[j] == prefix[j]);
                assert(out_has_name(out, e.person_name@));
            }
        }
    }
}

/// Partition law at the minute level: when the rows of `out` carry
/// pairwise distinct persons and every entry's person has a row, the
/// per-row minute sums add up to the total minutes of all entries —
/// every entry is counted in exactly one row, none dropped, none
/// twice.
pub proof fn lemma_minutes_conserved(s: Seq<NormalizedEntry>, out: Seq<RecordAbsenceSum>)
    requires
        distinct_names(out),
        forall|i: int| 0 <= i < s.len() ==> out_has_name(out, (#[trigger] s[i]).person_name@),
    ensures
        rows_minutes(s, out) == total_dur(s),
    decreases s.len(),
{
    if s.len() == 0 {
        lemma_rows_minutes_empty(s, out);
    } else {
        let prefix = s.drop_last();
        assert forall|i: int| 0 <= i < prefix.len() implies out_has_name(
            out,
            (#[trigger] prefix[i]).person_name@,
        ) by {
            assert(prefix[i] == s[i]);
        }
        lemma_minutes_conserved(prefix, out);
        lemma_rows_minutes_step(s, out);
        assert(out_has_name(out, s.last().person_name@)) by {
            assert(s[s.len() - 1].person_name@ == s.last().person_name@);
        }
    }
}

/// A school-hour total times the school-hour length lies within one
/// school-hour (less a minute) of the minutes it truncates.
proof fn lemma_trunc_close(x: int)
    ensures
        x - (SCHOOL_HOUR_MINUTES - 1) <= (SCHOOL_HOUR_MINUTES as int) * trunc_hours(x) <= x + (
        SCHOOL_HOUR_MINUTES - 1),
{
    let h = SCHOOL_HOUR_MINUTES as int;
    if x >= 0 {
        lemma_fundamental_div_mod(x, h);
        lemma_mod_division_less_than_divisor(x, h);
    } else {
        lemma_fundamental_div_mod(-x, h);
        lemma_mod_division_less_than_divisor(-x, h);
    }
}

proof fn lemma_rows_totals_close(s: Seq<NormalizedEntry>, out: Seq<RecordAbsenceSum>)
    requires
        forall|i: int| 0 <= i < out.len() ==> row_ok(s, #[trigger] out[i]),
    ensures
        (SCHOOL_HOUR_MINUTES as int) * sum_grand_totals(out) - 2 * (SCHOOL_HOUR_MINUTES - 1)
            * out.len() <= rows_minutes(s, out),
        rows_minutes(s, out) <= (SCHOOL_HOUR_MINUTES as int) * sum_grand_totals(out) + 2 * (
        SCHOOL_HOUR_MINUTES - 1) * out.len(),
    decreases out.len(),
{
    assert(2 * (SCHOOL_HOUR_MINUTES - 1) * out.len() == 132 * out.len());
    if out.len() > 0 {
        let prefix = out.drop_last();
        assert(2 * (SCHOOL_HOUR_MINUTES - 1) * prefix.len() == 132 * prefix.len());
        assert forall|i: int| 0 <= i < prefix.len() implies row_ok(s, #[trigger] prefix[i]) by {
            assert(prefix[i] == out[i]);
        }
        lemma_rows_totals_close(s, prefix);
        let row = out.last();
        assert(row_ok(s, row)) by {
            assert(out[out.len() - 1] == row);
        }
        let a = dur_sum(s, row.person_name@, Status::Excused);
        let b = dur_sum(s, row.person_name@, Status::Unexcused);
        lemma_trunc_close(a);
        lemma_trunc_close(b);
        assert(rows_minutes(s, out) == rows_minutes(s, prefix) + a + b);
        assert(sum_grand_totals(out) == sum_grand_totals(prefix) + row.grand_total);
        assert(row.grand_total == trunc_hours(a) + trunc_hours(b));
        assert((SCHOOL_HOUR_MINUTES as int) * (sum_grand_totals(prefix) + trunc_hours(a)
            + trunc_hours(b)) == (SCHOOL_HOUR_MINUTES as int) * sum_grand_totals(prefix) + (
        SCHOOL_HOUR_MINUTES as int) * trunc_hours(a) + (SCHOOL_HOUR_MINUTES as int) * trunc_hours(
            b,
        ));
        assert(prefix.len() == out.len() - 1);
    }
}

/// Rows with pairwise strictly ascending names carry pairwise
/// distinct names.
pub proof fn lemma_sorted_distinct(out: Seq<RecordAbsenceSum>)
    requires
        forall|i: int, j: int|
            0 <= i < j < out.len() ==> lex_lt(
                (#[trigger] out[i]).person_name@,
                (#[trigger] out[j]).person_name@,
            ),
    ensures
        distinct_names(out),
{
    assert forall|i: int, j: int| 0 <= i < j < out.len() implies (#[trigger] out[i]).person_name@
        != (#[trigger] out[j]).person_name@ by {
        lemma_lex_irreflexive(out[i].person_name@);
    }
}

/// Conservation of totals: a summary loses no minutes and invents
/// none. At the minute level the per-row sums add up exactly to the
/// total minutes of all entries; the reported grand totals, being
/// truncated to whole school-hours, add up to that total to within
/// two school-hours (less a minute each) per row.
pub proof fn lemma_totals_conserved(s: Seq<NormalizedEntry>, out: Seq<RecordAbsenceSum>)
    requires
        summarizes(s, out),
    ensures
        rows_minutes(s, out) == total_dur(s),
        (SCHOOL_HOUR_MINUTES as int) * sum_grand_totals(out) - 2 * (SCHOOL_HOUR_MINUTES - 1)
            * out.len() <= total_dur(s),
        total_dur(s) <= (SCHOOL_HOUR_MINUTES as int) * sum_grand_totals(out) + 2 * (
        SCHOOL_HOUR_MINUTES - 1) * out.len(),
{
    lemma_sorted_distinct(out);
    lemma_minutes_conserved(s, out);
    lemma_rows_totals_close(s, out);
}

/// An empty batch has only the empty summary: a summary of no
/// entries can hold no row, since every row's person must occur in
/// some entry.
pub proof fn lemma_empty_input_empty_summary(s: Seq<NormalizedEntry>, out: Seq<RecordAbsenceSum>)
    requires
        summarizes(s, out),
        s.len() == 0,
    ensures
        out.len() == 0,
{
    if out.len() > 0 {
        assert(has_person(s, out[0].person_name@));
        assert(false);
    }
}

proof fn lemma_sorted_names_equal(out1: Seq<RecordAbsenceSum>, out2: Seq<RecordAbsenceSum>)
    requires
        forall|i: int, j: int|
            0 <= i < j < out1.len() ==> lex_lt(
                (#[trigger] out1[i]).person_name@,
                (#[trigger] out1[j]).person_name@,
            ),
        forall|i: int, j: int|
            0 <= i < j < out2.len() ==> lex_lt(
                (#[trigger] out2[i]).person_name@,
                (#[trigger] out2[j]).person_name@,
            ),
        forall|x: Seq<char>| #[trigger] out_has_name(out1, x) <==> out_has_name(out2, x),
    ensures
        out1.len() == out2.len(),
        forall|i: int|
            0 <= i < out1.len() ==> (#[trigger] out1[i]).person_name@ == (
            #[trigger] out2[i]).person_name@,
    decreases out1.len(),
{
    if out1.len() == 0 {
        if out2.len() > 0 {
            assert(out_has_name(out2, out2[0].person_name@));
            assert(out_has_name(out1, out2[0].person_name@));
            assert(false);
        }
    } else if out2.len() == 0 {
        assert(out_has_name(out1, out1[0].person_name@));
        assert(out_has_name(out2, out1[0].person_name@));
        assert(false);
    } else {
        let n1 = out1[0].person_name@;
        let n2 = out2[0].person_name@;
        assert(out_has_name(out1, n1));
        assert(out_has_name(out2, n2));
        assert(out_has_name(out2, n1));
        assert(out_has_name(out1, n2));
        let j = choose|j: int| 0 <= j < out2.len() && out2[j].person_name@ == n1;
        let k = choose|k: int| 0 <= k < out1.len() && out1[k].person_name@ == n2;
        if j > 0 && k > 0 {
            assert(lex_lt(n2, out2[j].person_name@));
            assert(lex_lt(n1, out1[k].person_name@));
            lemma_lex_asymmetric(n2, n1);
            assert(false);
        }
        if j > 0 && k == 0 {
            assert(lex_lt(n2, n1));
            assert(n1 == n2);
            lemma_lex_irreflexive(n1);
            assert(false);
        }
        if j == 0 && k > 0 {
            assert(lex_lt(n1, n2));
            assert(n2 == n1);
            lemma_lex_irreflexive(n1);
            assert(false);
        }
        assert(n1 == n2);
        let tail1 = out1.drop_first();
        let tail2 = out2.drop_first();
        assert forall|i: int, jj: int| 0 <= i < jj < tail1.len() implies lex_lt(
            (#[trigger] tail1[i]).person_name@,
            (#[trigger] tail1[jj]).person_name@,
        ) by {
            assert(tail1[i] == out1[i + 1]);
            assert(tail1[jj] == out1[jj + 1]);
        }
        assert forall|i: int, jj: int| 0 <= i < jj < tail2.len() implies lex_lt(
            (#[trigger] tail2[i]).person_name@,
            (#[trigger] tail2[jj]).person_name@,
        ) by {
            assert(tail2[i] == out2[i + 1]);
            assert(tail2[jj] == out2[jj + 1]);
        }
        assert forall|x: Seq<char>| #[trigger]
            out_has_name(tail1, x) <==> out_has_name(tail2, x) by {
            if out_has_name(tail1, x) {
                let i = choose|i: int| 0 <= i < tail1.len() && tail1[i].person_name@ == x;
                assert(tail1[i] == out1[i + 1]);
                assert(out_has_name(out1, x));
                assert(lex_lt(n1, x));
                lemma_lex_irreflexive(x);
                let jj = choose|jj: int| 0 <= jj < out2.len() && out2[jj].person_name@ == x;
                assert(jj != 0);
                assert(tail2[jj - 1] == out2[jj]);
                assert(out_has_name(tail2, x));
            }
            if out_has_name(tail2, x) {
                let i = choose|i: int| 0 <= i < tail2.len() && tail2[i].person_name@ == x;
                assert(tail2[i] == out2[i + 1]);
                assert(out_has_name(out2, x));
                assert(out_has_name(out1, x));
                assert(lex_lt(n2, x));
                lemma_lex_irreflexive(x);
                let jj = choose|jj: int| 0 <= jj < out1.len() && out1[jj].person_name@ == x;
                assert(jj != 0);
                assert(tail1[jj - 1] == out1[jj]);
                assert(out_has_name(tail1, x));
            }
        }
        lemma_sorted_names_equal(tail1, tail2);
        assert forall|i: int| 0 <= i < out1.len() implies (#[trigger] out1[i]).person_name@ == (
        #[trigger] out2[i]).person_name@ by {
            if i > 0 {
                assert(tail1[i - 1] == out1[i]);
                assert(tail2[i - 1] == out2[i]);
            }
        }
    }
}

/// The summary of a batch is unique: any two summaries of the same
/// entries agree row by row in person and in every total. Aggregating
/// the same entries twice therefore yields identical summary
/// sequences, order included.
pub proof fn lemma_summary_unique(
    s: Seq<NormalizedEntry>,
    out1: Seq<RecordAbsenceSum>,
    out2: Seq<RecordAbsenceSum>,
)
    requires
        summarizes(s, out1),
        summarizes(s, out2),
    ensures
        out1.len() == out2.len(),
        forall|i: int|
            0 <= i < out1.len() ==> {
                &&& (#[trigger] out1[i]).person_name@ == (#[trigger] out2[i]).person_name@
                &&& out1[i].excused_total == out2[i].excused_total
                &&& out1[i].unexcused_total == out2[i].unexcused_total
                &&& out1[i].grand_total == out2[i].grand_total
            },
{
    assert forall|x: Seq<char>| #[trigger] out_has_name(out1, x) <==> out_has_name(out2, x) by {
        if out_has_name(out1, x) {
            let i = choose|i: int| 0 <= i < out1.len() && out1[i].person_name@ == x;
            assert(has_person(s, out1[i].person_name@));
            let e = choose|e: int| 0 <= e < s.len() && s[e].person_name@ == x;
            assert(out_has_name(out2, s[e].person_name@));
        }
        if out_has_name(out2, x) {
            let i = choose|i: int| 0 <= i < out2.len() && out2[i].person_name@ == x;
            assert(has_person(s, out2[i].person_name@));
            let e = choose|e: int| 0 <= e < s.len() && s[e].person_name@ == x;
            assert(out_has_name(out1, s[e].person_name@));
        }
    }
    lemma_sorted_names_equal(out1, out2);
    assert forall|i: int| 0 <= i < out1.len() implies row_ok(s, #[trigger] out1[i]) && row_ok(
        s,
        #[trigger] out2[i],
    ) by {}
}

} // verus!