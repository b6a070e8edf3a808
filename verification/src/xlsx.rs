//! Table rows from spreadsheets.
//!
//! All lines of the first sheet of a workbook are read (other sheets are
//! not); a line is taken as an admission unit
//! when its first non-blank cell starts with a Hangul syllable and at least
//! two of its cells hold numbers. The figures are then picked by range:
//! grades are the numbers in [1, 9.5], the competition rate is the first
//! fractional number in [0.5, 1000) that is not a grade, and the applicant
//! count the first whole number in [10, 100000). Header positions and merged
//! cells differ from sheet to sheet, so this is a first, heuristic pass.
use crate::model::{F32Bits, Row};
use crate::normalize::is_grade_bits;
use crate::text::{chars_of, trim, trim_to_string};
use vstd::prelude::*;
use vstd::relations::{sorted_by, total_ordering};
use vstd::seq_lib::{lemma_sorted_unique, to_multiset_build, to_multiset_insert};

verus! {

/// What was read from a spreadsheet.
pub struct XlsxExtraction {
    pub rows: Vec<Row>,
    pub warnings: Vec<String>,
}

/// One line of a sheet: the text of each cell, and the numbers those cells
/// hold, in order (each cell that, with its ',' removed, reads as a 32-bit
/// floating point number).
pub struct CellLine {
    pub cells: Vec<String>,
    pub numbers: Vec<F32Bits>,
}

/// What reading one sheet gave.
pub enum SheetRead {
    Failed { name: String, error: String },
    Lines(Vec<CellLine>),
}

/// What opening a workbook gave: when it opened, what reading its first
/// sheet gave (none for a workbook without sheets).
pub enum WorkbookRead {
    OpenFailed { error: String },
    Opened { first_sheet: Option<SheetRead> },
}

// ---------------------------------------------------------------------------
// Numbers
// ---------------------------------------------------------------------------

/// For `b` encoding a non-negative finite number: that number is whole.
///
/// With the sign bit clear, `b >> 23` is the biased exponent `e` and the
/// number is (2^23 + m) * 2^(e - 150), where `m = b % 2^23`. It is zero when
/// `b == 0`, below 1 when `e < 127`, always whole when `e >= 150`, and else
/// whole when the low `150 - e` bits of `m` (those of `b`) are zero.
pub open spec fn has_zero_fraction(b: u32) -> bool {
    let e = b >> 23u32;
    if b == 0 {
        true
    } else if e < 127 {
        false
    } else if e >= 150 {
        true
    } else {
        b % (1u32 << ((150 - e) as u32)) == 0
    }
}

/// For `b` encoding a whole number in [1, 2^23): that number,
/// (2^23 + m) / 2^(150 - e).
pub open spec fn whole_value(b: u32) -> u32 {
    let e = b >> 23u32;
    ((0x80_0000 + b % 0x80_0000) / ((1u32 << ((150 - e) as u32)) as int)) as u32
}

/// A competition rate: a number in [0.5, 1000) with a fractional part, and
/// not in the grade range. 0x3F00_0000 encodes 0.5, 0x447A_0000 encodes 1000.
pub open spec fn is_rate_candidate(b: u32) -> bool {
    0x3F00_0000 <= b < 0x447A_0000 && !has_zero_fraction(b) && !is_grade_bits(b)
}

/// An applicant count: a whole number in [10, 100000). 0x4120_0000 encodes
/// 10, 0x47C3_5000 encodes 100000.
pub open spec fn is_applicant_candidate(b: u32) -> bool {
    0x4120_0000 <= b < 0x47C3_5000 && has_zero_fraction(b)
}

/// The first element of `s` that `p` holds of.
pub open spec fn first_where(s: Seq<F32Bits>, p: spec_fn(F32Bits) -> bool) -> Option<F32Bits>
    decreases s.len(),
{
    if s.len() == 0 {
        None
    } else if p(s[0]) {
        Some(s[0])
    } else {
        first_where(s.drop_first(), p)
    }
}

pub open spec fn rate_test() -> spec_fn(F32Bits) -> bool {
    |x: F32Bits| is_rate_candidate(x.bits)
}

pub open spec fn applicant_test() -> spec_fn(F32Bits) -> bool {
    |x: F32Bits| is_applicant_candidate(x.bits)
}

/// Order of numbers by value (for the numbers in the grade range, this is
/// the order of their encodings).
pub open spec fn by_value() -> spec_fn(F32Bits, F32Bits) -> bool {
    |x: F32Bits, y: F32Bits| x.bits <= y.bits
}

/// The numbers in the grade range, in order of occurrence.
pub open spec fn grade_numbers(s: Seq<F32Bits>) -> Seq<F32Bits>
    decreases s.len(),
{
    if s.len() == 0 {
        s
    } else if is_grade_bits(s.last().bits) {
        grade_numbers(s.drop_last()).push(s.last())
    } else {
        grade_numbers(s.drop_last())
    }
}

/// The numbers in the grade range, ascending.
pub open spec fn sorted_grades(s: Seq<F32Bits>) -> Seq<F32Bits> {
    grade_numbers(s).sort_by(by_value())
}

// ---------------------------------------------------------------------------
// Lines
// ---------------------------------------------------------------------------

/// A cell whose text is only white space (or nothing).
pub open spec fn is_blank(c: String) -> bool {
    trim(c@).len() == 0
}

/// Position of the first non-blank cell, or the number of cells.
pub open spec fn first_filled(cells: Seq<String>) -> nat
    decreases cells.len(),
{
    if cells.len() == 0 || !is_blank(cells[0]) {
        0
    } else {
        1 + first_filled(cells.drop_first())
    }
}

/// A precomposed Hangul syllable (가 to 힣).
pub open spec fn starts_with_hangul(s: Seq<char>) -> bool {
    s.len() > 0 && '가' <= s[0] && s[0] <= '힣'
}

/// A line is taken as a row: its first non-blank cell starts with a Hangul
/// syllable and it holds at least two numbers.
pub open spec fn line_accepted(line: CellLine) -> bool {
    let p = first_filled(line.cells@);
    &&& p < line.cells@.len()
    &&& starts_with_hangul(line.cells@[p as int]@)
    &&& line.numbers@.len() >= 2
}

/// The encoding of 0.7f32 (two or more figures besides two numbers found)
/// and of 0.4f32.
pub open spec fn confidence_of(count: nat) -> F32Bits {
    if count >= 4 {
        F32Bits { bits: 0x3F33_3333 }
    } else {
        F32Bits { bits: 0x3ECC_CCCD }
    }
}

/// `r` is the row read from an accepted `line`: the department is its first
/// non-blank cell, trimmed; the selection its second cell when that is not
/// empty; the grades the smallest, second, third smallest and largest grade
/// number; the rate and applicant count as `first_where` picks them.
pub open spec fn is_row_of(r: Row, line: CellLine) -> bool {
    let cells = line.cells@;
    let nums = line.numbers@;
    let g = sorted_grades(nums);
    &&& r.department@ == trim(cells[first_filled(cells) as int]@)
    &&& r.selection == (if cells.len() > 1 && cells[1]@.len() > 0 {
        Some(cells[1])
    } else {
        None
    })
    &&& r.applicants == (match first_where(nums, applicant_test()) {
        Some(x) => Some(whole_value(x.bits)),
        None => None,
    })
    &&& r.competition_rate == first_where(nums, rate_test())
    &&& r.grade_50pct == (if g.len() > 0 {
        Some(g[0])
    } else {
        None
    })
    &&& r.grade_70pct == (if g.len() > 1 {
        Some(g[1])
    } else {
        None
    })
    &&& r.grade_avg == (if g.len() > 2 {
        Some(g[2])
    } else {
        None
    })
    &&& r.grade_min == (if g.len() > 0 {
        Some(g.last())
    } else {
        None
    })
    &&& r.raw_cells == line.cells
    &&& r.extraction_confidence == confidence_of(nums.len())
    &&& r.page is None
}

/// The lines of the first sheet, when it was read.
pub open spec fn sheet_lines(first_sheet: Option<SheetRead>) -> Seq<CellLine> {
    match first_sheet {
        Some(SheetRead::Lines(lines)) => lines@,
        _ => Seq::empty(),
    }
}

/// The accepted lines, in order.
pub open spec fn accepted_lines(lines: Seq<CellLine>) -> Seq<CellLine>
    decreases lines.len(),
{
    if lines.len() == 0 {
        lines
    } else if line_accepted(lines.last()) {
        accepted_lines(lines.drop_last()).push(lines.last())
    } else {
        accepted_lines(lines.drop_last())
    }
}

/// Each row is read from the accepted line at its position.
pub open spec fn rows_of_lines(rows: Seq<Row>, lines: Seq<CellLine>) -> bool {
    &&& rows.len() == lines.len()
    &&& forall|i: int| 0 <= i < rows.len() ==> is_row_of(#[trigger] rows[i], lines[i])
}

/// A warning when the first sheet could not be read.
pub open spec fn sheet_warnings(first_sheet: Option<SheetRead>) -> Seq<Seq<char>> {
    match first_sheet {
        Some(SheetRead::Failed { name, error }) => seq!["시트 '"@ + name@ + "' 읽기 실패: "@ + error@],
        _ => Seq::empty(),
    }
}

/// The warning when no line of the workbook was taken.
pub open spec fn no_rows_warning() -> Seq<char> {
    "XLSX 표 추출 실패: 데이터 행을 인식하지 못했습니다."@
}

// ---------------------------------------------------------------------------
// Lemmas
// ---------------------------------------------------------------------------

proof fn lemma_first_where(s: Seq<F32Bits>, p: spec_fn(F32Bits) -> bool, i: int)
    requires
        0 <= i <= s.len(),
        forall|k: int| 0 <= k < i ==> !p(#[trigger] s[k]),
    ensures
        first_where(s, p) == first_where(s.skip(i), p),
    decreases i,
{
    if i > 0 {
        let t = s.drop_first();
        assert forall|k: int| 0 <= k < i - 1 implies !p(#[trigger] t[k]) by {
            assert(t[k] == s[k + 1]);
        }
        assert(!p(s[0]));
        lemma_first_where(t, p, i - 1);
        assert(t.skip(i - 1) =~= s.skip(i));
    } else {
        assert(s.skip(0) =~= s);
    }
}

proof fn lemma_first_filled(cells: Seq<String>, i: int)
    requires
        0 <= i <= cells.len(),
        forall|k: int| 0 <= k < i ==> is_blank(#[trigger] cells[k]),
        i == cells.len() || !is_blank(cells[i]),
    ensures
        first_filled(cells) == i,
    decreases i,
{
    if i > 0 {
        let t = cells.drop_first();
        assert forall|k: int| 0 <= k < i - 1 implies is_blank(#[trigger] t[k]) by {
            assert(t[k] == cells[k + 1]);
        }
        if i - 1 < t.len() {
            assert(t[i - 1] == cells[i]);
        }
        lemma_first_filled(t, i - 1);
    }
}

proof fn lemma_by_value_total()
    ensures
        total_ordering(by_value()),
{
    assert forall|x: F32Bits, y: F32Bits| #[trigger]
        by_value()(x, y) && #[trigger] by_value()(y, x) implies x == y by {
        assert(x.bits == y.bits);
    }
}

/// Every number that `grade_numbers` keeps is in the grade range.
proof fn lemma_grade_numbers_in_range(s: Seq<F32Bits>)
    ensures
        forall|i: int|
            0 <= i < grade_numbers(s).len() ==> is_grade_bits(#[trigger] grade_numbers(s)[i].bits),
    decreases s.len(),
{
    if s.len() > 0 {
        let pre = grade_numbers(s.drop_last());
        lemma_grade_numbers_in_range(s.drop_last());
        assert forall|i: int| 0 <= i < grade_numbers(s).len() implies is_grade_bits(
            #[trigger] grade_numbers(s)[i].bits,
        ) by {
            if i < pre.len() {
                assert(grade_numbers(s)[i] == pre[i]);
            }
        }
    }
}

/// The figures of a spreadsheet row: its grades lie in [1, 9.5] and are
/// ordered 50% <= 70% <= average <= lowest, and its confidence lies in
/// [0, 1] (0x3F80_0000 encodes 1.0).
pub proof fn lemma_row_figures(r: Row, line: CellLine)
    requires
        is_row_of(r, line),
    ensures
        crate::normalize::grades_in_range(r),
        r.grade_50pct matches Some(a) ==> (r.grade_70pct matches Some(b) ==> a.bits <= b.bits),
        r.grade_70pct matches Some(a) ==> (r.grade_avg matches Some(b) ==> a.bits <= b.bits),
        r.grade_avg matches Some(a) ==> (r.grade_min matches Some(b) ==> a.bits <= b.bits),
        r.grade_50pct matches Some(a) ==> (r.grade_min matches Some(b) ==> a.bits <= b.bits),
        r.extraction_confidence.bits <= 0x3F80_0000,
{
    let nums = line.numbers@;
    let kept = grade_numbers(nums);
    let g = sorted_grades(nums);
    lemma_by_value_total();
    kept.lemma_sort_by_ensures(by_value());
    lemma_grade_numbers_in_range(nums);
    assert forall|i: int| 0 <= i < g.len() implies is_grade_bits(#[trigger] g[i].bits) by {
        assert(g.contains(g[i]));
        vstd::seq_lib::to_multiset_contains(g, g[i]);
        vstd::seq_lib::to_multiset_contains(kept, g[i]);
        let j = choose|j: int| 0 <= j < kept.len() && kept[j] == g[i];
        assert(is_grade_bits(kept[j].bits));
    }
    if g.len() > 1 {
        assert(by_value()(g[0], g[1]));
        assert(by_value()(g[0], g[g.len() - 1]) || g.len() - 1 == 0);
    }
    if g.len() > 2 {
        assert(by_value()(g[1], g[2]));
    }
    if g.len() > 3 {
        assert(by_value()(g[2], g[g.len() - 1]));
    }
}

// ---------------------------------------------------------------------------
// Executable functions
// ---------------------------------------------------------------------------

/// Whether the number that `b` encodes is whole (see `has_zero_fraction`).
fn has_zero_fraction_exec(b: u32) -> (res: bool)
    ensures
        res == has_zero_fraction(b),
{
    let e = b >> 23u32;
    if b == 0 {
        true
    } else if e < 127 {
        false
    } else if e >= 150 {
        true
    } else {
        let k: u32 = 150 - e;
        let d = 1u32 << k;
        assert(d > 0) by (bit_vector)
            requires
                d == 1u32 << k,
                k < 32,
        ;
        b % d == 0
    }
}

/// `f32::fract(n) != 0.0 && 0.5 <= n < 1000 && !(1.0..=9.5).contains(n)`.
fn is_rate_candidate_exec(x: F32Bits) -> (res: bool)
    ensures
        res == is_rate_candidate(x.bits),
{
    0x3F00_0000 <= x.bits && x.bits < 0x447A_0000 && !has_zero_fraction_exec(x.bits) && !(
    0x3F80_0000 <= x.bits && x.bits <= 0x4118_0000)
}

/// `f32::fract(n) == 0.0 && 10 <= n < 100000`.
fn is_applicant_candidate_exec(x: F32Bits) -> (res: bool)
    ensures
        res == is_applicant_candidate(x.bits),
{
    0x4120_0000 <= x.bits && x.bits < 0x47C3_5000 && has_zero_fraction_exec(x.bits)
}

/// The whole number that an applicant candidate encodes (`n as u32`).
fn whole_value_exec(b: u32) -> (res: u32)
    requires
        is_applicant_candidate(b),
    ensures
        res == whole_value(b),
{
    let e = b >> 23u32;
    assert(0x4120_0000u32 >> 23u32 == 130u32) by (bit_vector);
    assert(b < 0x47C3_5000 ==> b >> 23u32 <= 143u32) by (bit_vector);
    assert(0x4120_0000 <= b ==> b >> 23u32 >= 130u32) by (bit_vector);
    let k: u32 = 150 - e;
    let d = 1u32 << k;
    assert(d > 0) by (bit_vector)
        requires
            d == 1u32 << k,
            k < 32,
    ;
    (0x80_0000 + b % 0x80_0000) / d
}

/// The first rate candidate among `nums`.
fn first_rate(nums: &Vec<F32Bits>) -> (res: Option<F32Bits>)
    ensures
        res == first_where(nums@, rate_test()),
{
    let n = nums.len();
    let mut i: usize = 0;
    while i < n
        invariant
            i <= n,
            n == nums@.len(),
            forall|k: int| 0 <= k < i ==> !rate_test()(#[trigger] nums@[k]),
        decreases n - i,
    {
        if is_rate_candidate_exec(nums[i]) {
            proof {
                lemma_first_where(nums@, rate_test(), i as int);
            }
            return Some(nums[i]);
        }
        i += 1;
    }
    proof {
        lemma_first_where(nums@, rate_test(), n as int);
    }
    None
}

/// The applicant count: the value of the first applicant candidate.
fn first_applicants(nums: &Vec<F32Bits>) -> (res: Option<u32>)
    ensures
        res == (match first_where(nums@, applicant_test()) {
            Some(x) => Some(whole_value(x.bits)),
            None => None,
        }),
{
    let n = nums.len();
    let mut i: usize = 0;
    while i < n
        invariant
            i <= n,
            n == nums@.len(),
            forall|k: int| 0 <= k < i ==> !applicant_test()(#[trigger] nums@[k]),
        decreases n - i,
    {
        if is_applicant_candidate_exec(nums[i]) {
            proof {
                lemma_first_where(nums@, applicant_test(), i as int);
            }
            return Some(whole_value_exec(nums[i].bits));
        }
        i += 1;
    }
    proof {
        lemma_first_where(nums@, applicant_test(), n as int);
    }
    None
}

/// The numbers of `nums` in the grade range, ascending.
pub fn grades_ascending(nums: &Vec<F32Bits>) -> (res: Vec<F32Bits>)
    ensures
        res@ == sorted_grades(nums@),
{
    let n = nums.len();
    let mut picked: Vec<F32Bits> = Vec::new();
    let mut i: usize = 0;
    while i < n
        invariant
            i <= n,
            n == nums@.len(),
            picked@ == grade_numbers(nums@.take(i as int)),
        decreases n - i,
    {
        assert(nums@.take(i + 1).drop_last() =~= nums@.take(i as int));
        if 0x3F80_0000 <= nums[i].bits && nums[i].bits <= 0x4118_0000 {
            picked.push(nums[i]);
        }
        i += 1;
    }
    assert(nums@.take(n as int) =~= nums@);
    let m = picked.len();
    let mut res: Vec<F32Bits> = Vec::new();
    let mut j: usize = 0;
    assert(picked@.take(0) =~= res@);
    while j < m
        invariant
            j <= m,
            m == picked@.len(),
            sorted_by(res@, by_value()),
            res@.to_multiset() == picked@.take(j as int).to_multiset(),
            res@.len() == j,
        decreases m - j,
    {
        let x = picked[j];
        let len = res.len();
        let mut k: usize = 0;
        while k < len && res[k].bits <= x.bits
            invariant
                k <= len,
                len == res@.len(),
                forall|q: int| 0 <= q < k ==> res@[q].bits <= x.bits,
            decreases len - k,
        {
            k += 1;
        }
        let ghost before = res@;
        res.insert(k, x);
        assert(picked@.take(j + 1) =~= picked@.take(j as int).push(x));
        assert(res@ == before.insert(k as int, x));
        proof {
            to_multiset_insert(before, k as int, x);
            to_multiset_build(picked@.take(j as int), x);
        }
        assert(picked@.take(j as int).push(x).to_multiset() == picked@.take(
            j as int,
        ).to_multiset().insert(x));
        assert forall|a: int, b: int| 0 <= a < b < res@.len() implies #[trigger] by_value()(
            res@[a],
            res@[b],
        ) by {
            if b < k {
                assert(by_value()(before[a], before[b]));
            } else if a < k && b == k {
            } else if a < k {
                assert(by_value()(before[a], before[b - 1]));
            } else if a == k {
                assert(by_value()(before[k as int], before[b - 1]));
            } else {
                assert(by_value()(before[a - 1], before[b - 1]));
            }
        }
        j += 1;
    }
    assert(picked@.take(m as int) =~= picked@);
    proof {
        lemma_by_value_total();
        picked@.lemma_sort_by_ensures(by_value());
        lemma_sorted_unique(res@, picked@.sort_by(by_value()), by_value());
    }
    res
}

/// Whether a cell is blank.
fn is_blank_exec(c: &String) -> (res: bool)
    ensures
        res == is_blank(*c),
{
    let t = trim_to_string(c.as_str());
    t.as_str().is_empty()
}

/// Whether `s` starts with a Hangul syllable.
fn starts_with_hangul_exec(s: &str) -> (res: bool)
    ensures
        res == starts_with_hangul(s@),
{
    let cs = chars_of(s);
    cs.len() > 0 && '가' <= cs[0] && cs[0] <= '힣'
}

/// The row read from a line, if the line is taken (see `line_accepted` and
/// `is_row_of`).
pub fn row_from_line(line: CellLine) -> (res: Option<Row>)
    ensures
        res is Some <==> line_accepted(line),
        res matches Some(r) ==> is_row_of(r, line),
{
    let ghost l = line;
    let CellLine { cells, numbers } = line;
    let n = cells.len();
    let mut p: usize = 0;
    while p < n && is_blank_exec(&cells[p])
        invariant
            p <= n,
            n == cells@.len(),
            forall|k: int| 0 <= k < p ==> is_blank(#[trigger] cells@[k]),
        decreases n - p,
    {
        p += 1;
    }
    proof {
        lemma_first_filled(cells@, p as int);
    }
    if p == n {
        return None;
    }
    if !starts_with_hangul_exec(cells[p].as_str()) {
        return None;
    }
    if numbers.len() < 2 {
        return None;
    }
    let department = trim_to_string(cells[p].as_str());
    let selection = if n > 1 && !cells[1].as_str().is_empty() {
        Some(cells[1].clone())
    } else {
        None
    };
    let grades = grades_ascending(&numbers);
    let g = grades.len();
    let grade_50pct = if g > 0 {
        Some(grades[0])
    } else {
        None
    };
    let grade_70pct = if g > 1 {
        Some(grades[1])
    } else {
        None
    };
    let grade_avg = if g > 2 {
        Some(grades[2])
    } else {
        None
    };
    let grade_min = if g > 0 {
        Some(grades[g - 1])
    } else {
        None
    };
    let extraction_confidence = if numbers.len() >= 4 {
        F32Bits { bits: 0x3F33_3333 }
    } else {
        F32Bits { bits: 0x3ECC_CCCD }
    };
    let competition_rate = first_rate(&numbers);
    let applicants = first_applicants(&numbers);
    Some(
        Row {
            department,
            selection,
            applicants,
            competition_rate,
            grade_50pct,
            grade_70pct,
            grade_avg,
            grade_min,
            raw_cells: cells,
            extraction_confidence,
            page: None,
        },
    )
}

/// Rows and warnings from a workbook: the first sheet's lines in order, a
/// warning when that sheet could not be read, and a warning when no line was
/// taken. A workbook that could not be opened gives no rows and one warning.
pub fn extract(workbook: WorkbookRead) -> (res: XlsxExtraction)
    ensures
        match workbook {
            WorkbookRead::OpenFailed { error } => {
                &&& res.rows@.len() == 0
                &&& res.warnings.deep_view() == seq!["XLSX 열기 실패: "@ + error@]
            },
            WorkbookRead::Opened { first_sheet } => {
                let taken = accepted_lines(sheet_lines(first_sheet));
                &&& rows_of_lines(res.rows@, taken)
                &&& res.warnings.deep_view() == sheet_warnings(first_sheet) + (if taken.len()
                    == 0 {
                    seq![no_rows_warning()]
                } else {
                    Seq::empty()
                })
            },
        },
{
    match workbook {
        WorkbookRead::OpenFailed { error } => {
            let mut msg = String::from_str("XLSX 열기 실패: ");
            msg.append(error.as_str());
            let mut warnings: Vec<String> = Vec::new();
            warnings.push(msg);
            assert(warnings.deep_view() =~= seq!["XLSX 열기 실패: "@ + error@]);
            XlsxExtraction { rows: Vec::new(), warnings }
        },
        WorkbookRead::Opened { first_sheet } => {
            let ghost sheet = first_sheet;
            let mut rows: Vec<Row> = Vec::new();
            let mut warnings: Vec<String> = Vec::new();
            match first_sheet {
                Some(SheetRead::Failed { name, error }) => {
                    let mut msg = String::from_str("시트 '");
                    msg.append(name.as_str());
                    msg.append("' 읽기 실패: ");
                    msg.append(error.as_str());
                    warnings.push(msg);
                },
                Some(SheetRead::Lines(lines)) => {
                    let ghost ls = lines@;
                    assert(ls.take(0) =~= Seq::<CellLine>::empty());
                    for line in it: lines.into_iter()
                        invariant
                            it.seq() == ls,
                            rows_of_lines(rows@, accepted_lines(ls.take(it.index() as int))),
                    {
                        let ghost j = it.index();
                        assert(ls.take(j + 1).drop_last() =~= ls.take(j as int));
                        assert(ls.take(j + 1).last() == line);
                        let ghost ln = line;
                        match row_from_line(line) {
                            Some(r) => {
                                rows.push(r);
                                assert(is_row_of(rows@.last(), ln));
                            },
                            None => {},
                        }
                        assert(rows_of_lines(rows@, accepted_lines(ls.take(j + 1))));
                    }
                    assert(ls.take(ls.len() as int) =~= ls);
                },
                None => {},
            }
            if rows.len() == 0 {
                warnings.push(String::from_str("XLSX 표 추출 실패: 데이터 행을 인식하지 못했습니다."));
            }
            let ghost taken = accepted_lines(sheet_lines(sheet));
            assert(warnings.deep_view() =~= sheet_warnings(sheet) + (if taken.len() == 0 {
                seq![no_rows_warning()]
            } else {
                Seq::empty()
            }));
            XlsxExtraction { rows, warnings }
        },
    }
}

} // verus!
