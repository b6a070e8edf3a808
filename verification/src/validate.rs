//! Sanity checks on an extracted document; what fails is added to its
//! warnings.
use crate::model::{Document, F32Bits, Row};
use crate::normalize::kept_rows;
use crate::text::{decimal, push_decimal};
use vstd::prelude::*;

verus! {

/// `b` encodes a number in [0.0, 500.0], the range of a competition rate.
///
/// 0x43FA_0000 encodes 500.0; 0x8000_0000 encodes -0.0, which equals 0.0.
pub open spec fn is_rate_bits(b: u32) -> bool {
    b <= 0x43FA_0000 || b == 0x8000_0000
}

/// `b` encodes a number in [1.0, 9.0]; a grade above 9 is abnormal.
/// 0x3F80_0000 encodes 1.0 and 0x4110_0000 encodes 9.0; encodings of
/// non-negative numbers are ordered as the numbers are.
pub open spec fn is_sane_grade_bits(b: u32) -> bool {
    0x3F80_0000 <= b <= 0x4110_0000
}

/// A grade that is absent or in [1, 9].
pub open spec fn grade_is_sane(g: Option<F32Bits>) -> bool {
    match g {
        Some(x) => is_sane_grade_bits(x.bits),
        None => true,
    }
}

/// A row passes the sanity check: its competition rate lies in [0, 500], its
/// grades in [1, 9] and its applicant count is at most 1,000,000.
pub open spec fn row_is_sane(r: Row) -> bool {
    &&& (r.competition_rate matches Some(c) ==> is_rate_bits(c.bits))
    &&& grade_is_sane(r.grade_50pct)
    &&& grade_is_sane(r.grade_70pct)
    &&& grade_is_sane(r.grade_avg)
    &&& grade_is_sane(r.grade_min)
    &&& (r.applicants matches Some(a) ==> a <= 1_000_000)
}

/// Number of rows that fail the sanity check.
pub open spec fn insane_count(rows: Seq<Row>) -> nat
    decreases rows.len(),
{
    if rows.len() == 0 {
        0
    } else {
        insane_count(rows.drop_last()) + if row_is_sane(rows.last()) {
            0nat
        } else {
            1nat
        }
    }
}

/// The warnings that the check adds, in order: no university, no year, and
/// the number `bad` of rows that fail the sanity check when there are any.
pub open spec fn check_warnings(univ: Seq<char>, year: Option<u32>, bad: nat) -> Seq<
    Seq<char>,
> {
    (if univ.len() == 0 {
        seq!["대학명을 식별하지 못했습니다."@]
    } else {
        Seq::empty()
    }) + (if year is None {
        seq!["연도를 식별하지 못했습니다."@]
    } else {
        Seq::empty()
    }) + (if bad > 0 {
        seq![decimal(bad) + "개 행이 sanity 검증 실패 (등급 범위·경쟁률 음수 등)."@]
    } else {
        Seq::empty()
    })
}

/// Which rows fail the sanity check: a row fails when any of its four grades
/// is present and outside [1, 9] (encodings 0x3F80_0000 to 0x4110_0000; a
/// negative number, NaN or infinity lies outside), when its competition rate
/// is present and outside [0, 500], or when it has more than 1,000,000
/// applicants; a row whose present figures all lie in range passes.
pub proof fn lemma_sanity_by_field(r: Row)
    ensures
        (r.grade_50pct matches Some(g) && !(0x3F80_0000 <= g.bits <= 0x4110_0000)) ==> !row_is_sane(r),
        (r.grade_70pct matches Some(g) && !(0x3F80_0000 <= g.bits <= 0x4110_0000)) ==> !row_is_sane(r),
        (r.grade_avg matches Some(g) && !(0x3F80_0000 <= g.bits <= 0x4110_0000)) ==> !row_is_sane(r),
        (r.grade_min matches Some(g) && !(0x3F80_0000 <= g.bits <= 0x4110_0000)) ==> !row_is_sane(r),
        (r.competition_rate matches Some(c) && !(c.bits <= 0x43FA_0000 || c.bits == 0x8000_0000)) ==> !row_is_sane(r),
        (r.applicants matches Some(a) && a > 1_000_000) ==> !row_is_sane(r),
        ((r.grade_50pct matches Some(g) ==> 0x3F80_0000 <= g.bits <= 0x4110_0000)
            && (r.grade_70pct matches Some(g) ==> 0x3F80_0000 <= g.bits <= 0x4110_0000)
            && (r.grade_avg matches Some(g) ==> 0x3F80_0000 <= g.bits <= 0x4110_0000)
            && (r.grade_min matches Some(g) ==> 0x3F80_0000 <= g.bits <= 0x4110_0000)
            && (r.competition_rate matches Some(c) ==> (c.bits <= 0x43FA_0000 || c.bits == 0x8000_0000))
            && (r.applicants matches Some(a) ==> a <= 1_000_000)) ==> row_is_sane(r),
{
}

/// The warnings of the check: one for a missing university, then one for a
/// missing year, then one that gives the number of failing rows when there
/// are any; nothing for a document with a university, a year and sound rows.
pub proof fn lemma_check_warnings_shape(univ: Seq<char>, year: Option<u32>, bad: nat)
    ensures
        check_warnings(univ, year, bad).len() == (if univ.len() == 0 { 1int } else { 0int }) + (
        if year is None { 1int } else { 0int }) + (if bad > 0 { 1int } else { 0int }),
        univ.len() == 0 ==> check_warnings(univ, year, bad)[0] == "대학명을 식별하지 못했습니다."@,
        univ.len() > 0 && year is None ==> check_warnings(univ, year, bad)[0] == "연도를 식별하지 못했습니다."@,
        univ.len() == 0 && year is None ==> check_warnings(univ, year, bad)[1] == "연도를 식별하지 못했습니다."@,
        bad > 0 ==> check_warnings(univ, year, bad).last() == decimal(bad) + "개 행이 sanity 검증 실패 (등급 범위·경쟁률 음수 등)."@,
{
}

/// No more rows fail than there are.
pub proof fn lemma_insane_count_bound(rows: Seq<Row>)
    ensures
        insane_count(rows) <= rows.len(),
    decreases rows.len(),
{
    if rows.len() > 0 {
        lemma_insane_count_bound(rows.drop_last());
    }
}

/// Rows are flagged exactly when one of them fails the sanity check.
pub proof fn lemma_flagged_iff_some_row_fails(rows: Seq<Row>)
    ensures
        insane_count(rows) > 0 <==> exists|i: int| 0 <= i < rows.len() && !row_is_sane(
            #[trigger] rows[i],
        ),
    decreases rows.len(),
{
    if rows.len() > 0 {
        let pre = rows.drop_last();
        lemma_flagged_iff_some_row_fails(pre);
        if insane_count(pre) > 0 {
            let i = choose|i: int| 0 <= i < pre.len() && !row_is_sane(#[trigger] pre[i]);
            assert(rows[i] == pre[i]);
        }
        if exists|i: int| 0 <= i < rows.len() && !row_is_sane(#[trigger] rows[i]) {
            let i = choose|i: int| 0 <= i < rows.len() && !row_is_sane(#[trigger] rows[i]);
            if i < rows.len() - 1 {
                assert(pre[i] == rows[i]);
            }
        }
    }
}

/// Whether a row passes the sanity check.
pub fn sanity_row(r: &Row) -> (b: bool)
    ensures
        b == row_is_sane(*r),
{
    match r.competition_rate {
        Some(c) => {
            if !(c.bits <= 0x43FA_0000 || c.bits == 0x8000_0000) {
                return false;
            }
        },
        None => {},
    }
    let grades = [r.grade_50pct, r.grade_70pct, r.grade_avg, r.grade_min];
    let mut k: usize = 0;
    while k < 4
        invariant
            k <= 4,
            grades@ == seq![r.grade_50pct, r.grade_70pct, r.grade_avg, r.grade_min],
            forall|q: int| 0 <= q < k ==> grade_is_sane(#[trigger] grades@[q]),
        decreases 4 - k,
    {
        match grades[k] {
            Some(g) => {
                if !(0x3F80_0000 <= g.bits && g.bits <= 0x4110_0000) {
                    return false;
                }
            },
            None => {},
        }
        k += 1;
    }
    assert(grades@[0] == r.grade_50pct);
    assert(grades@[1] == r.grade_70pct);
    assert(grades@[2] == r.grade_avg);
    assert(grades@[3] == r.grade_min);
    match r.applicants {
        Some(a) => a <= 1_000_000,
        None => true,
    }
}

/// Number of rows that fail the sanity check.
pub fn count_insane(rows: &Vec<Row>) -> (res: usize)
    ensures
        res == insane_count(rows@),
{
    let n = rows.len();
    let mut bad: usize = 0;
    let mut i: usize = 0;
    while i < n
        invariant
            i <= n,
            n == rows@.len(),
            bad == insane_count(rows@.take(i as int)),
            bad <= i,
        decreases n - i,
    {
        assert(rows@.take(i + 1).drop_last() =~= rows@.take(i as int));
        if !sanity_row(&rows[i]) {
            bad += 1;
        }
        i += 1;
    }
    assert(rows@.take(n as int) =~= rows@);
    bad
}

/// Number of rows with a department (those that polishing keeps) that fail
/// the sanity check, judged on their figures as extracted.
pub fn count_insane_kept(rows: &Vec<Row>) -> (res: usize)
    ensures
        res == insane_count(kept_rows(rows@)),
{
    let n = rows.len();
    let mut bad: usize = 0;
    let mut i: usize = 0;
    while i < n
        invariant
            i <= n,
            n == rows@.len(),
            bad == insane_count(kept_rows(rows@.take(i as int))),
            bad <= i,
        decreases n - i,
    {
        let ghost pre = rows@.take(i as int);
        assert(rows@.take(i + 1).drop_last() =~= pre);
        if !rows[i].department.as_str().is_empty() {
            assert(kept_rows(rows@.take(i + 1)) == kept_rows(pre).push(rows@[i as int]));
            assert(kept_rows(rows@.take(i + 1)).drop_last() =~= kept_rows(pre));
            if !sanity_row(&rows[i]) {
                bad += 1;
            }
        } else {
            assert(kept_rows(rows@.take(i + 1)) == kept_rows(pre));
        }
        i += 1;
    }
    assert(rows@.take(n as int) =~= rows@);
    bad
}

/// Adds the warnings of the sanity check to the document, for `bad` rows
/// found failing it (see `check_warnings`); nothing else changes.
pub fn add_check_warnings(doc: &mut Document, bad: usize)
    ensures
        final(doc).warnings.deep_view() == old(doc).warnings.deep_view() + check_warnings(
            old(doc).univ@,
            old(doc).year,
            bad as nat,
        ),
        final(doc).id == old(doc).id,
        final(doc).univ == old(doc).univ,
        final(doc).region == old(doc).region,
        final(doc).year == old(doc).year,
        final(doc).track == old(doc).track,
        final(doc).selection_types == old(doc).selection_types,
        final(doc).source == old(doc).source,
        final(doc).rows == old(doc).rows,
        final(doc).ocr_text == old(doc).ocr_text,
{
    let ghost w0 = doc.warnings.deep_view();
    if doc.univ.as_str().is_empty() {
        doc.warnings.push(String::from_str("대학명을 식별하지 못했습니다."));
    }
    if doc.year.is_none() {
        doc.warnings.push(String::from_str("연도를 식별하지 못했습니다."));
    }
    if bad > 0 {
        let mut msg = String::new();
        push_decimal(&mut msg, bad as u64);
        msg.append("개 행이 sanity 검증 실패 (등급 범위·경쟁률 음수 등).");
        doc.warnings.push(msg);
    }
    assert(doc.warnings.deep_view() =~= w0 + check_warnings(doc.univ@, doc.year, bad as nat));
}

/// Adds to the document's warnings what the sanity checks find (see
/// `check_warnings`); nothing else changes.
pub fn check(doc: &mut Document)
    ensures
        final(doc).warnings.deep_view() == old(doc).warnings.deep_view() + check_warnings(
            old(doc).univ@,
            old(doc).year,
            insane_count(old(doc).rows@),
        ),
        final(doc).id == old(doc).id,
        final(doc).univ == old(doc).univ,
        final(doc).region == old(doc).region,
        final(doc).year == old(doc).year,
        final(doc).track == old(doc).track,
        final(doc).selection_types == old(doc).selection_types,
        final(doc).source == old(doc).source,
        final(doc).rows == old(doc).rows,
        final(doc).ocr_text == old(doc).ocr_text,
{
    let bad = count_insane(&doc.rows);
    add_check_warnings(doc, bad);
}

} // verus!
