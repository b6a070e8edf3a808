//! Table rows from PDFs.
//!
//! Rows of a PDF are not read here: a preprocessing step writes them, for
//! `data/raw/<rel>`, to `data/preprocessed/<rel>.rows.json`, with the fields
//! of `PreprocessFile`. This module turns what was found there into rows and
//! warnings. Without a preprocessed file a document has no rows and a
//! warning (its original is still linked from the site). Every row's
//! confidence is brought into [0, 1].
use crate::model::{F32Bits, Row};
use vstd::prelude::*;

verus! {

/// What was read for a PDF.
pub struct PdfExtraction {
    pub rows: Vec<Row>,
    pub warnings: Vec<String>,
}

/// One row as the preprocessing step writes it.
pub struct PreprocessRow {
    pub department: String,
    pub applicants: Option<u32>,
    pub competition_rate: Option<F32Bits>,
    pub grade_50pct: Option<F32Bits>,
    pub grade_70pct: Option<F32Bits>,
    pub grade_min: Option<F32Bits>,
    pub raw_line: String,
    pub extraction_confidence: F32Bits,
    pub page: Option<u32>,
}

/// A preprocessed file: its rows and the warnings of the preprocessing step.
pub struct PreprocessFile {
    pub rows: Vec<PreprocessRow>,
    pub warnings: Vec<String>,
}

/// What looking for the preprocessed file of a PDF gave.
pub enum PreprocessLookup {
    /// The PDF is not under the raw data folder (its path as displayed).
    NotUnderRaw { pdf_path: String },
    /// There is no preprocessed file (the path looked at, as displayed).
    Missing { json_path: String },
    /// The preprocessed file exists but could not be read.
    Unreadable { error: String },
    /// The preprocessed file is not valid JSON of the expected shape.
    Unparsable { error: String },
    /// The preprocessed file, parsed.
    Parsed { file: PreprocessFile },
}

/// `b` encodes a number in [0, 1] (0x3F80_0000 encodes 1.0, 0x8000_0000
/// encodes -0.0).
pub open spec fn is_unit_bits(b: u32) -> bool {
    b <= 0x3F80_0000 || b == 0x8000_0000
}

/// A confidence brought into [0, 1]: kept when it lies there; above 1
/// (infinity too) it becomes 1; a negative number or NaN becomes 0.
/// Encodings above 0x3F80_0000 up to 0x7F80_0000 are the numbers above 1
/// and +infinity; the others outside [0, 1] are negative or NaN.
pub open spec fn unit_clamped(b: u32) -> u32 {
    if is_unit_bits(b) {
        b
    } else if b <= 0x7F80_0000 {
        0x3F80_0000
    } else {
        0
    }
}

/// `out` carries the figures of `r`, its confidence brought into [0, 1]; a
/// PDF row has no selection and no average grade, and its raw cells are its
/// raw line unless that is empty.
pub open spec fn is_row_of_preprocessed(out: Row, r: PreprocessRow) -> bool {
    &&& out.department == r.department
    &&& out.selection is None
    &&& out.applicants == r.applicants
    &&& out.competition_rate == r.competition_rate
    &&& out.grade_50pct == r.grade_50pct
    &&& out.grade_70pct == r.grade_70pct
    &&& out.grade_avg is None
    &&& out.grade_min == r.grade_min
    &&& out.raw_cells@ == (if r.raw_line@.len() == 0 {
        Seq::empty()
    } else {
        seq![r.raw_line]
    })
    &&& out.extraction_confidence == F32Bits { bits: unit_clamped(r.extraction_confidence.bits) }
    &&& out.page == r.page
}

/// A row taken from a PDF carries each figure of its preprocessed row
/// unchanged, each from its own field: department, applicants, competition
/// rate, the 50% and 70% grades, the lowest grade and the page; it has no
/// selection and no average grade. Its confidence is the preprocessed one
/// when that lies in [0, 1], 1.0 when it is above 1, and 0 otherwise.
pub proof fn lemma_pdf_row_carries_figures(out: Row, r: PreprocessRow)
    requires
        is_row_of_preprocessed(out, r),
    ensures
        out.department == r.department,
        out.applicants == r.applicants,
        out.competition_rate == r.competition_rate,
        out.grade_50pct == r.grade_50pct,
        out.grade_70pct == r.grade_70pct,
        out.grade_min == r.grade_min,
        out.page == r.page,
        out.selection is None,
        out.grade_avg is None,
        r.raw_line@.len() > 0 ==> out.raw_cells@ == seq![r.raw_line],
        r.raw_line@.len() == 0 ==> out.raw_cells@.len() == 0,
        (r.extraction_confidence.bits <= 0x3F80_0000 || r.extraction_confidence.bits == 0x8000_0000)
            ==> out.extraction_confidence == r.extraction_confidence,
        0x3F80_0000 < r.extraction_confidence.bits <= 0x7F80_0000 ==> out.extraction_confidence.bits
            == 0x3F80_0000,
        (0x7F80_0000 < r.extraction_confidence.bits && r.extraction_confidence.bits != 0x8000_0000)
            ==> out.extraction_confidence.bits == 0,
{
}

/// Every row taken from a PDF has its confidence in [0, 1].
pub proof fn lemma_confidence_in_unit_range(out: Row, r: PreprocessRow)
    requires
        is_row_of_preprocessed(out, r),
    ensures
        is_unit_bits(out.extraction_confidence.bits),
{
}

/// Brings a confidence into [0, 1] (see `unit_clamped`).
pub fn clamp_confidence(c: F32Bits) -> (res: F32Bits)
    ensures
        res.bits == unit_clamped(c.bits),
{
    if c.bits <= 0x3F80_0000 || c.bits == 0x8000_0000 {
        c
    } else if c.bits <= 0x7F80_0000 {
        F32Bits { bits: 0x3F80_0000 }
    } else {
        F32Bits { bits: 0 }
    }
}

/// The warning for a PDF outside the raw data folder.
pub open spec fn not_under_raw_warning(pdf_path: Seq<char>) -> Seq<char> {
    "PDF 경로가 data/raw 하위가 아닙니다: "@ + pdf_path
}

/// The warning for a PDF without a preprocessed file.
pub open spec fn missing_warning(json_path: Seq<char>) -> Seq<char> {
    "preprocess 결과가 없습니다: "@ + json_path
        + " — `python3 scripts/preprocess_pdf.py data` 실행 필요"@
}

/// The warning for a preprocessed file that is not valid.
pub open spec fn unparsable_warning(error: Seq<char>) -> Seq<char> {
    "preprocess JSON 파싱 실패: "@ + error
}

/// The file name of the preprocessed rows of a PDF named `name`.
pub fn preprocessed_file_name(name: &str) -> (res: String)
    ensures
        res@ == name@ + ".rows.json"@,
{
    let mut s = String::from_str(name);
    s.append(".rows.json");
    s
}

/// Converts one preprocessed row.
fn row_of_preprocessed(r: PreprocessRow) -> (out: Row)
    ensures
        is_row_of_preprocessed(out, r),
{
    let ghost r0 = r;
    let PreprocessRow {
        department,
        applicants,
        competition_rate,
        grade_50pct,
        grade_70pct,
        grade_min,
        raw_line,
        extraction_confidence,
        page,
    } = r;
    let mut raw_cells: Vec<String> = Vec::new();
    if !raw_line.as_str().is_empty() {
        raw_cells.push(raw_line);
    }
    assert(raw_cells@ =~= (if r0.raw_line@.len() == 0 {
        Seq::empty()
    } else {
        seq![r0.raw_line]
    }));
    Row {
        department,
        selection: None,
        applicants,
        competition_rate,
        grade_50pct,
        grade_70pct,
        grade_avg: None,
        grade_min,
        raw_cells,
        extraction_confidence: clamp_confidence(extraction_confidence),
        page,
    }
}

/// A warning alone, with no rows.
fn only_warning(msg: String) -> (res: PdfExtraction)
    ensures
        res.rows@.len() == 0,
        res.warnings.deep_view() == seq![msg@],
{
    let mut warnings: Vec<String> = Vec::new();
    warnings.push(msg);
    assert(warnings.deep_view() =~= seq![msg@]);
    PdfExtraction { rows: Vec::new(), warnings }
}

/// Rows and warnings for a PDF from what its preprocessed file gave: the
/// file's rows and warnings when it was parsed; else no rows and one warning;
/// an unreadable file is an error.
pub fn extract(lookup: PreprocessLookup) -> (res: Result<PdfExtraction, String>)
    ensures
        match lookup {
            PreprocessLookup::NotUnderRaw { pdf_path } => res matches Ok(x) && x.rows@.len() == 0
                && x.warnings.deep_view() == seq![not_under_raw_warning(pdf_path@)],
            PreprocessLookup::Missing { json_path } => res matches Ok(x) && x.rows@.len() == 0
                && x.warnings.deep_view() == seq![missing_warning(json_path@)],
            PreprocessLookup::Unreadable { error } => res == Err::<PdfExtraction, String>(error),
            PreprocessLookup::Unparsable { error } => res matches Ok(x) && x.rows@.len() == 0
                && x.warnings.deep_view() == seq![unparsable_warning(error@)],
            PreprocessLookup::Parsed { file } => res matches Ok(x) && x.warnings == file.warnings
                && x.rows@.len() == file.rows@.len() && forall|i: int|
                0 <= i < x.rows@.len() ==> is_row_of_preprocessed(
                    #[trigger] x.rows@[i],
                    file.rows@[i],
                ),
        },
{
    match lookup {
        PreprocessLookup::NotUnderRaw { pdf_path } => {
            let mut msg = String::from_str("PDF 경로가 data/raw 하위가 아닙니다: ");
            msg.append(pdf_path.as_str());
            Ok(only_warning(msg))
        },
        PreprocessLookup::Missing { json_path } => {
            let mut msg = String::from_str("preprocess 결과가 없습니다: ");
            msg.append(json_path.as_str());
            msg.append(" — `python3 scripts/preprocess_pdf.py data` 실행 필요");
            Ok(only_warning(msg))
        },
        PreprocessLookup::Unreadable { error } => Err(error),
        PreprocessLookup::Unparsable { error } => {
            let mut msg = String::from_str("preprocess JSON 파싱 실패: ");
            msg.append(error.as_str());
            Ok(only_warning(msg))
        },
        PreprocessLookup::Parsed { file } => {
            let PreprocessFile { rows: pre_rows, warnings } = file;
            let ghost input = pre_rows@;
            let mut rows: Vec<Row> = Vec::new();
            for r in it: pre_rows.into_iter()
                invariant
                    it.seq() == input,
                    rows@.len() == it.index(),
                    forall|i: int|
                        0 <= i < rows@.len() ==> is_row_of_preprocessed(
                            #[trigger] rows@[i],
                            input[i],
                        ),
            {
                rows.push(row_of_preprocessed(r));
            }
            Ok(PdfExtraction { rows, warnings })
        },
    }
}

} // verus!
