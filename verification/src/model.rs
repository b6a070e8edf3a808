//! The data model of the extraction report.
//!
//! Numbers that the tables hold as 32-bit floating point values are kept as
//! their IEEE-754 binary32 encodings (`F32Bits`), so that every rule on them
//! is a rule on integers.
use crate::summary::CountMap;
use vstd::prelude::*;

verus! {

/// Admission round of a document: early (수시), regular (정시) or not known.
#[derive(Clone, Copy, Debug, PartialEq, Eq, Structural)]
pub enum Track {
    Susi,
    Jeongsi,
    Unknown,
}

/// Whether the publisher allows the document's body to be shown.
#[derive(Clone, Copy, Debug, PartialEq, Eq, Structural)]
pub enum LicenseStatus {
    Confirmed,
    Pending,
    LinkOnly,
    Denied,
}

impl Default for LicenseStatus {
    fn default() -> (res: Self)
        ensures
            res == LicenseStatus::Pending,
    {
        LicenseStatus::Pending
    }
}

/// The IEEE-754 binary32 encoding of a number read from a table
/// (what `f32::to_bits` gives).
#[derive(Clone, Copy, Debug, PartialEq, Eq, Structural)]
pub struct F32Bits {
    pub bits: u32,
}

/// One extracted table row: an admission unit and its figures.
pub struct Row {
    pub department: String,
    pub selection: Option<String>,
    pub applicants: Option<u32>,
    pub competition_rate: Option<F32Bits>,
    pub grade_50pct: Option<F32Bits>,
    pub grade_70pct: Option<F32Bits>,
    pub grade_avg: Option<F32Bits>,
    pub grade_min: Option<F32Bits>,
    pub raw_cells: Vec<String>,
    /// A number in [0, 1].
    pub extraction_confidence: F32Bits,
    /// Page index (from 0) of a row taken from a PDF; none for spreadsheets.
    pub page: Option<u32>,
}

/// Where a document comes from.
pub struct Source {
    pub filename: String,
    /// pdf, xlsx, xls, hwp, hwpx, jpg, jpeg, png, html or htm.
    pub format: String,
    /// Path relative to the site root.
    pub url: String,
    pub size_bytes: u64,
    pub official_url: Option<String>,
    pub license_status: LicenseStatus,
    pub note: Option<String>,
}

/// One source file with what was extracted from it.
pub struct Document {
    pub id: String,
    pub univ: String,
    pub region: String,
    pub year: Option<u32>,
    pub track: Option<Track>,
    pub selection_types: Vec<String>,
    pub source: Source,
    pub rows: Vec<Row>,
    pub ocr_text: Option<String>,
    pub warnings: Vec<String>,
}

/// Totals over all documents.
pub struct Summary {
    pub total_documents: usize,
    pub total_rows: usize,
    pub avg_confidence: F32Bits,
    pub by_region: CountMap,
    pub by_format: CountMap,
}

/// The whole output of a scan.
pub struct Report {
    pub schema_version: u32,
    pub generated_at: String,
    pub summary: Summary,
    pub documents: Vec<Document>,
}

} // verus!
