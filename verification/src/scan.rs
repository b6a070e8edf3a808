//! The decisions of a scan over `data/raw/<region>/...`: which files are
//! documents, what is extracted from each, and how a document and the final
//! report are put together. Walking folders and reading files is left to the
//! caller, which hands over what it found.
use crate::model::{Document, F32Bits, LicenseStatus, Report, Row, Source, Track};
use crate::normalize::{
    is_polished, kept_rows, lemma_kept_rows_contains, lemma_kept_rows_in, lemma_kept_rows_len, polish,
    slug, slug_spec,
};
use crate::pdf::PdfExtraction;
use crate::source_meta::{
    folder_matches, parse, ParsedName, regex_find, selection_types_of, track_of, univ_of_folder_matches,
    univ_of_stem, year_of_match, year_pattern,
};
use crate::summary::{build_summary, format_keys, region_keys, rows_total, tally};
use crate::text::{decimal, push_decimal, replace_char, replace_char_exec, str_equal};
use crate::validate::{
    add_check_warnings, check_warnings, count_insane_kept, insane_count, lemma_flagged_iff_some_row_fails,
    lemma_insane_count_bound, row_is_sane,
};
use crate::xlsx::XlsxExtraction;
use vstd::prelude::*;

verus! {

// ---------------------------------------------------------------------------
// File formats
// ---------------------------------------------------------------------------

/// The lower-case form of `s` under Unicode case mapping.
pub uninterp spec fn lowercase(s: Seq<char>) -> Seq<char>;

/// `str::to_lowercase`. Claimed: the result is `lowercase` of the argument;
/// nothing more is stated of Unicode case mapping.
#[verifier::external_body]
fn to_lowercase(s: &str) -> (res: String)
    ensures
        res@ == lowercase(s@),
{
    s.to_lowercase()
}

/// The formats a scan records.
pub open spec fn is_known_format(f: Seq<char>) -> bool {
    ||| f == "pdf"@
    ||| f == "xlsx"@
    ||| f == "xls"@
    ||| f == "hwp"@
    ||| f == "hwpx"@
    ||| f == "jpg"@
    ||| f == "jpeg"@
    ||| f == "png"@
    ||| f == "html"@
    ||| f == "htm"@
}

/// The format of a lower-case extension, if a scan records it.
pub fn known_format(lower: &str) -> (res: Option<String>)
    ensures
        res.deep_view() == (if is_known_format(lower@) {
            Some(lower@)
        } else {
            None
        }),
{
    if str_equal(lower, "pdf") || str_equal(lower, "xlsx") || str_equal(lower, "xls") || str_equal(
        lower,
        "hwp",
    ) || str_equal(lower, "hwpx") || str_equal(lower, "jpg") || str_equal(lower, "jpeg")
        || str_equal(lower, "png") || str_equal(lower, "html") || str_equal(lower, "htm") {
        Some(String::from_str(lower))
    } else {
        None
    }
}

/// The format of a file with extension `ext` (any case), if a scan records
/// it; other files are skipped.
pub fn scan_format(ext: &str) -> (res: Option<String>)
    ensures
        res.deep_view() == (if is_known_format(lowercase(ext@)) {
            Some(lowercase(ext@))
        } else {
            None
        }),
{
    let lower = to_lowercase(ext);
    known_format(lower.as_str())
}

/// The key of a file in the metadata overrides and its URL: its path below
/// the raw data folder with '/' between components.
pub fn path_key(rel: &str) -> (res: String)
    ensures
        res@ == replace_char(rel@, '\\', '/'),
{
    let slash = "/";
    proof {
        reveal_strlit("/");
    }
    replace_char_exec(rel, '\\', slash)
}

// ---------------------------------------------------------------------------
// Metadata overrides and license
// ---------------------------------------------------------------------------

/// Metadata given by hand for one file.
pub struct FileMetaOverride {
    pub univ: Option<String>,
    pub official_url: Option<String>,
    pub license_status: Option<String>,
    pub note: Option<String>,
}

/// The license named by an override: confirmed, link_only or denied;
/// anything else, or nothing, is pending.
pub open spec fn license_of(s: Option<Seq<char>>) -> LicenseStatus {
    match s {
        Some(t) => if t == "confirmed"@ {
            LicenseStatus::Confirmed
        } else if t == "link_only"@ {
            LicenseStatus::LinkOnly
        } else if t == "denied"@ {
            LicenseStatus::Denied
        } else {
            LicenseStatus::Pending
        },
        None => LicenseStatus::Pending,
    }
}

/// The license named by an override.
pub fn license_status_of(s: &Option<String>) -> (res: LicenseStatus)
    ensures
        res == license_of(s.deep_view()),
{
    match s {
        Some(t) => if str_equal(t.as_str(), "confirmed") {
            LicenseStatus::Confirmed
        } else if str_equal(t.as_str(), "link_only") {
            LicenseStatus::LinkOnly
        } else if str_equal(t.as_str(), "denied") {
            LicenseStatus::Denied
        } else {
            LicenseStatus::Pending
        },
        None => LicenseStatus::Pending,
    }
}

// ---------------------------------------------------------------------------
// What to extract
// ---------------------------------------------------------------------------

/// What to do for the body of a document.
pub enum BodyPlan {
    /// Merge the preprocessed rows of the PDF (see `pdf::extract`).
    Pdf,
    /// Read the workbook (see `xlsx::extract`).
    Xlsx,
    /// Record this warning only.
    Note { message: String },
    /// Nothing.
    Nothing,
}

/// The warning recorded for a format whose body is not read.
pub open spec fn note_of(format: Seq<char>) -> Option<Seq<char>> {
    if format == "hwp"@ || format == "hwpx"@ {
        Some("HWP는 사전 변환(scripts/hwp_to_pdf.sh) 후 PDF로 처리됩니다."@)
    } else if format == "jpg"@ || format == "jpeg"@ || format == "png"@ {
        Some("이미지 자료. OCR 결과는 data/ocr/에서 머지될 수 있습니다."@)
    } else if format == "html"@ || format == "htm"@ {
        Some("HTML 자료는 본 추출기에서 미지원. 링크만 노출."@)
    } else {
        None
    }
}

/// Bodies are read when asked for and the license does not deny it.
pub open spec fn reads_body(extract_body: bool, license: LicenseStatus) -> bool {
    extract_body && license != LicenseStatus::Denied
}

/// What to do for the body of a document of `format`: nothing unless
/// `reads_body`; else by format.
pub fn body_plan(extract_body: bool, license: LicenseStatus, format: &str) -> (res: BodyPlan)
    ensures
        match res {
            BodyPlan::Pdf => reads_body(extract_body, license) && format@ == "pdf"@,
            BodyPlan::Xlsx => reads_body(extract_body, license) && (format@ == "xlsx"@ || format@
                == "xls"@),
            BodyPlan::Note { message } => reads_body(extract_body, license) && note_of(format@)
                == Some(message@),
            BodyPlan::Nothing => !reads_body(extract_body, license) || (format@ != "pdf"@
                && format@ != "xlsx"@ && format@ != "xls"@ && note_of(format@) is None),
        },
{
    if !extract_body || license == LicenseStatus::Denied {
        return BodyPlan::Nothing;
    }
    if str_equal(format, "pdf") {
        BodyPlan::Pdf
    } else if str_equal(format, "xlsx") || str_equal(format, "xls") {
        BodyPlan::Xlsx
    } else if str_equal(format, "hwp") || str_equal(format, "hwpx") {
        BodyPlan::Note {
            message: String::from_str("HWP는 사전 변환(scripts/hwp_to_pdf.sh) 후 PDF로 처리됩니다."),
        }
    } else if str_equal(format, "jpg") || str_equal(format, "jpeg") || str_equal(format, "png") {
        BodyPlan::Note { message: String::from_str("이미지 자료. OCR 결과는 data/ocr/에서 머지될 수 있습니다.") }
    } else if str_equal(format, "html") || str_equal(format, "htm") {
        BodyPlan::Note { message: String::from_str("HTML 자료는 본 추출기에서 미지원. 링크만 노출.") }
    } else {
        BodyPlan::Nothing
    }
}

/// What carrying out a `BodyPlan` gave.
pub enum BodyOutcome {
    Pdf { result: Result<PdfExtraction, String> },
    Xlsx { extraction: XlsxExtraction },
    Note { message: String },
    Nothing,
}

/// The rows a body outcome gives.
pub open spec fn outcome_rows(o: BodyOutcome) -> Seq<Row> {
    match o {
        BodyOutcome::Pdf { result: Ok(x) } => x.rows@,
        BodyOutcome::Xlsx { extraction } => extraction.rows@,
        _ => Seq::empty(),
    }
}

/// The warnings a body outcome gives; a PDF error becomes a warning.
pub open spec fn outcome_warnings(o: BodyOutcome) -> Seq<Seq<char>> {
    match o {
        BodyOutcome::Pdf { result: Ok(x) } => x.warnings.deep_view(),
        BodyOutcome::Pdf { result: Err(e) } => seq!["PDF 처리 오류: "@ + e@],
        BodyOutcome::Xlsx { extraction } => extraction.warnings.deep_view(),
        BodyOutcome::Note { message } => seq![message@],
        BodyOutcome::Nothing => Seq::empty(),
    }
}

/// Rows and warnings of a body outcome.
fn outcome_body(o: BodyOutcome) -> (res: (Vec<Row>, Vec<String>))
    ensures
        res.0@ == outcome_rows(o),
        res.1.deep_view() == outcome_warnings(o),
{
    match o {
        BodyOutcome::Pdf { result } => match result {
            Ok(x) => (x.rows, x.warnings),
            Err(e) => {
                let mut msg = String::from_str("PDF 처리 오류: ");
                msg.append(e.as_str());
                let mut w: Vec<String> = Vec::new();
                w.push(msg);
                assert(w.deep_view() =~= seq!["PDF 처리 오류: "@ + e@]);
                (Vec::new(), w)
            },
        },
        BodyOutcome::Xlsx { extraction } => (extraction.rows, extraction.warnings),
        BodyOutcome::Note { message } => {
            let mut w: Vec<String> = Vec::new();
            let ghost m = message@;
            w.push(message);
            assert(w.deep_view() =~= seq![m]);
            (Vec::new(), w)
        },
        BodyOutcome::Nothing => {
            let w: Vec<String> = Vec::new();
            assert(w.deep_view() =~= Seq::<Seq<char>>::empty());
            (Vec::new(), w)
        },
    }
}

// ---------------------------------------------------------------------------
// Documents
// ---------------------------------------------------------------------------

/// One file found below the raw data folder.
pub struct FileEntry {
    /// The folders between the raw data folder and the file.
    pub parents: Vec<String>,
    /// The file name without its extension.
    pub stem: String,
    pub filename: String,
    /// See `scan_format`.
    pub format: String,
    /// See `path_key`.
    pub key: String,
    pub size_bytes: u64,
    /// The overrides given for the file's key, or none.
    pub meta: FileMetaOverride,
}

/// The region: the first folder, or 기타 (other).
pub open spec fn region_of(parents: Seq<String>) -> Seq<char> {
    if parents.len() > 0 {
        parents[0]@
    } else {
        "기타"@
    }
}

/// The formats a scan records are exactly pdf, xlsx, xls, hwp, hwpx, jpg,
/// jpeg, png, html and htm (in lower case).
pub proof fn lemma_known_formats(f: Seq<char>)
    ensures
        is_known_format(f) <==> seq![
            "pdf"@,
            "xlsx"@,
            "xls"@,
            "hwp"@,
            "hwpx"@,
            "jpg"@,
            "jpeg"@,
            "png"@,
            "html"@,
            "htm"@,
        ].contains(f),
{
    let l = seq![
        "pdf"@,
        "xlsx"@,
        "xls"@,
        "hwp"@,
        "hwpx"@,
        "jpg"@,
        "jpeg"@,
        "png"@,
        "html"@,
        "htm"@,
    ];
    if is_known_format(f) {
        if f == "pdf"@ { assert(l[0] == f); }
        else if f == "xlsx"@ { assert(l[1] == f); }
        else if f == "xls"@ { assert(l[2] == f); }
        else if f == "hwp"@ { assert(l[3] == f); }
        else if f == "hwpx"@ { assert(l[4] == f); }
        else if f == "jpg"@ { assert(l[5] == f); }
        else if f == "jpeg"@ { assert(l[6] == f); }
        else if f == "png"@ { assert(l[7] == f); }
        else if f == "html"@ { assert(l[8] == f); }
        else { assert(l[9] == f); }
    }
    if l.contains(f) {
        let i = choose|i: int| 0 <= i < l.len() && l[i] == f;
        assert(0 <= i < 10);
    }
}

/// The note recorded for a format whose body is not read: HWP files (hwp,
/// hwpx) wait for conversion to PDF, images (jpg, jpeg, png) for OCR, and
/// HTML pages (html, htm) are only linked; no other format gets one.
pub proof fn lemma_format_notes(f: Seq<char>)
    ensures
        (f == "hwp"@ || f == "hwpx"@) ==> note_of(f) == Some("HWP는 사전 변환(scripts/hwp_to_pdf.sh) 후 PDF로 처리됩니다."@),
        (f == "jpg"@ || f == "jpeg"@ || f == "png"@) ==> note_of(f) == Some("이미지 자료. OCR 결과는 data/ocr/에서 머지될 수 있습니다."@),
        (f == "html"@ || f == "htm"@) ==> note_of(f) == Some("HTML 자료는 본 추출기에서 미지원. 링크만 노출."@),
        (f != "hwp"@ && f != "hwpx"@ && f != "jpg"@ && f != "jpeg"@ && f != "png"@ && f != "html"@ && f != "htm"@) ==> note_of(f) is None,
{
    reveal_strlit("hwp");
    reveal_strlit("hwpx");
    reveal_strlit("jpg");
    reveal_strlit("jpeg");
    reveal_strlit("png");
    reveal_strlit("html");
    reveal_strlit("htm");
    assert("jpg"@[0] != "hwp"@[0] && "jpg"@[0] != "hwpx"@[0]);
    assert("jpeg"@[0] != "hwp"@[0] && "jpeg"@[0] != "hwpx"@[0]);
    assert("png"@[0] != "hwp"@[0] && "png"@[0] != "hwpx"@[0]);
    assert("html"@[1] != "hwp"@[1] && "html"@[1] != "hwpx"@[1]);
    assert("htm"@[1] != "hwp"@[1] && "htm"@[1] != "hwpx"@[1]);
    assert("html"@[0] != "jpg"@[0] && "html"@[0] != "jpeg"@[0] && "html"@[0] != "png"@[0]);
    assert("htm"@[0] != "jpg"@[0] && "htm"@[0] != "jpeg"@[0] && "htm"@[0] != "png"@[0]);
}

/// A university that the file name gives wins: the folders above the file
/// are then not consulted, whatever they are; only a name that gives none
/// falls back on the folders.
pub proof fn lemma_name_before_folders(p1: Seq<String>, p2: Seq<String>, stem: Seq<char>)
    ensures
        univ_of_stem(stem) is Some ==> parsed_univ(p1, stem) == univ_of_stem(stem)
            && parsed_univ(p1, stem) == parsed_univ(p2, stem),
        univ_of_stem(stem) is None ==> parsed_univ(p1, stem) == univ_of_folder_matches(
            folder_matches(p1),
        ),
{
}

/// A document's region is its first folder below the raw data folder,
/// whatever folders follow; a file directly in it is in 기타 (other).
pub proof fn lemma_region_first_folder(first: String, rest: Seq<String>)
    ensures
        region_of(seq![first] + rest) == first@,
        region_of(Seq::<String>::empty()) == "기타"@,
{
    assert((seq![first] + rest)[0] == first);
}

/// The university of a scanned document: an override always wins; without
/// one, what the name and folders give; without that, (미식별).
pub proof fn lemma_univ_choice(u: Seq<char>, parsed: Option<Seq<char>>, p: Seq<char>)
    ensures
        univ_choice(Some(u), parsed) == u,
        univ_choice(None, Some(p)) == p,
        univ_choice(None, None) == "(미식별)"@,
{
}

/// The license an override names: exactly "confirmed", "link_only" and
/// "denied" name their licenses; any other text, or none, leaves it
/// pending.
pub proof fn lemma_license_names(s: Option<Seq<char>>)
    ensures
        license_of(s) == LicenseStatus::Confirmed <==> s == Some("confirmed"@),
        license_of(s) == LicenseStatus::LinkOnly <==> s == Some("link_only"@),
        license_of(s) == LicenseStatus::Denied <==> s == Some("denied"@),
        license_of(s) == LicenseStatus::Pending <==> (s != Some("confirmed"@) && s != Some(
            "link_only"@,
        ) && s != Some("denied"@)),
{
    reveal_strlit("confirmed");
    reveal_strlit("link_only");
    reveal_strlit("denied");
    assert("confirmed"@ != "link_only"@ && "confirmed"@ != "denied"@ && "link_only"@ != "denied"@) by {
        assert("confirmed"@[0] != "link_only"@[0]);
        assert("confirmed"@[0] != "denied"@[0]);
        assert("link_only"@[0] != "denied"@[0]);
    }
}

/// A body is read only when extraction is asked for and the license does
/// not deny it: a denied file never has its body read.
pub proof fn lemma_denied_not_read(extract_body: bool, license: LicenseStatus)
    ensures
        reads_body(extract_body, license) <==> (extract_body && license != LicenseStatus::Denied),
        reads_body(extract_body, LicenseStatus::Denied) == false,
        !reads_body(false, license),
{
}

/// The university that the file name, or else the folders, give.
pub open spec fn parsed_univ(parents: Seq<String>, stem: Seq<char>) -> Option<Seq<char>> {
    match univ_of_stem(stem) {
        Some(u) => Some(u),
        None => univ_of_folder_matches(folder_matches(parents)),
    }
}

/// The university of a scanned document: the override, else the parsed
/// one, else (미식별) (not identified).
pub open spec fn univ_choice(meta_univ: Option<Seq<char>>, parsed: Option<Seq<char>>) -> Seq<char> {
    match meta_univ {
        Some(u) => u,
        None => match parsed {
            Some(u) => u,
            None => "(미식별)"@,
        },
    }
}

/// The university of a scanned document, from its override and its name.
pub open spec fn univ_of_entry(meta_univ: Option<Seq<char>>, parents: Seq<String>, stem: Seq<char>) -> Seq<char> {
    univ_choice(meta_univ, parsed_univ(parents, stem))
}

/// The year a file name gives.
pub open spec fn year_of_stem(stem: Seq<char>) -> Option<u32> {
    year_of_match(regex_find(year_pattern(), stem))
}

/// A university, year and track of `doc`, and its id, rows and warnings
/// from them: the id is `slug_spec`, the rows are `body_rows` polished, the
/// warnings are `body_warnings` and then those of the sanity check, which
/// judges the rows as extracted, so that a figure that polishing drops is
/// still counted.
pub open spec fn is_document_body(
    doc: Document,
    univ: Seq<char>,
    year: Option<u32>,
    track: Track,
    id_univ: Seq<char>,
    body_rows: Seq<Row>,
    body_warnings: Seq<Seq<char>>,
) -> bool {
    &&& doc.univ@ == univ
    &&& doc.year == year
    &&& doc.track == Some(track)
    &&& doc.id@ == slug_spec(id_univ, year, track)
    &&& is_polished(doc.rows@, body_rows)
    &&& doc.warnings.deep_view() == body_warnings + check_warnings(
        univ,
        year,
        insane_count(kept_rows(body_rows)),
    )
    &&& doc.ocr_text is None
}

/// The warnings of a document: those of its body, then those of the sanity
/// check, whose count of failing rows is positive exactly when some row of
/// the body with a department fails the check as extracted (before
/// polishing, so a grade that polishing drops is still flagged), and is at
/// most the number of rows.
pub proof fn lemma_document_flags_failing_rows(
    doc: Document,
    univ: Seq<char>,
    year: Option<u32>,
    track: Track,
    id_univ: Seq<char>,
    body_rows: Seq<Row>,
    body_warnings: Seq<Seq<char>>,
)
    requires
        is_document_body(doc, univ, year, track, id_univ, body_rows, body_warnings),
    ensures
        exists|n: nat|
            #![trigger check_warnings(univ, year, n)]
            doc.warnings.deep_view() == body_warnings + check_warnings(univ, year, n) && n
                <= body_rows.len() && (n > 0 <==> exists|i: int|
                0 <= i < body_rows.len() && body_rows[i].department@.len() > 0 && !row_is_sane(
                    #[trigger] body_rows[i],
                )),
{
    let k = kept_rows(body_rows);
    let n = insane_count(k);
    lemma_flagged_iff_some_row_fails(k);
    lemma_kept_rows_in(body_rows);
    lemma_insane_count_bound(k);
    lemma_kept_rows_len(body_rows);
    if n > 0 {
        let j = choose|j: int| 0 <= j < k.len() && !row_is_sane(#[trigger] k[j]);
        let i = choose|i: int| 0 <= i < body_rows.len() && body_rows[i] == #[trigger] k[j];
        assert(body_rows[i].department@.len() > 0 && !row_is_sane(body_rows[i]));
    }
    if exists|i: int|
        0 <= i < body_rows.len() && body_rows[i].department@.len() > 0 && !row_is_sane(
            #[trigger] body_rows[i],
        ) {
        let i = choose|i: int|
            0 <= i < body_rows.len() && body_rows[i].department@.len() > 0 && !row_is_sane(
                #[trigger] body_rows[i],
            );
        lemma_kept_rows_contains(body_rows, i);
        let j = choose|j: int| 0 <= j < k.len() && k[j] == body_rows[i];
        assert(!row_is_sane(k[j]));
    }
    assert(doc.warnings.deep_view() == body_warnings + check_warnings(univ, year, n));
}

/// Polishes the rows, gives the document its id and runs the sanity check.
fn finish_document(
    id_univ: &str,
    univ: String,
    region: String,
    year: Option<u32>,
    track: Track,
    selection_types: Vec<String>,
    source: Source,
    rows: Vec<Row>,
    warnings: Vec<String>,
) -> (doc: Document)
    ensures
        is_document_body(
            doc,
            univ@,
            year,
            track,
            id_univ@,
            rows@,
            warnings.deep_view(),
        ),
        doc.region == region,
        doc.selection_types == selection_types,
        doc.source == source,
{
    let bad = count_insane_kept(&rows);
    let rows = polish(rows);
    let id = slug(id_univ, year, &track);
    let mut doc = Document {
        id,
        univ,
        region,
        year,
        track: Some(track),
        selection_types,
        source,
        rows,
        ocr_text: None,
        warnings,
    };
    add_check_warnings(&mut doc, bad);
    doc
}

/// The document for a scanned file, given what its name says (`parsed`)
/// and what extracting its body gave.
pub fn document_from_parsed(entry: FileEntry, parsed: ParsedName, outcome: BodyOutcome) -> (doc:
    Document)
    ensures
        is_document_body(
            doc,
            univ_choice(entry.meta.univ.deep_view(), parsed.univ.deep_view()),
            parsed.year,
            parsed.track,
            univ_choice(entry.meta.univ.deep_view(), parsed.univ.deep_view()),
            outcome_rows(outcome),
            outcome_warnings(outcome),
        ),
        doc.region@ == region_of(entry.parents@),
        doc.selection_types == parsed.selection_types,
        doc.source.filename == entry.filename,
        doc.source.format == entry.format,
        doc.source.url@ == "data/raw/"@ + entry.key@,
        doc.source.size_bytes == entry.size_bytes,
        doc.source.official_url == entry.meta.official_url,
        doc.source.license_status == license_of(entry.meta.license_status.deep_view()),
        doc.source.note == entry.meta.note,
{
    let FileEntry { parents, stem: _, filename, format, key, size_bytes, meta } = entry;
    let FileMetaOverride { univ: meta_univ, official_url, license_status, note } = meta;
    let region = if parents.len() > 0 {
        parents[0].clone()
    } else {
        String::from_str("기타")
    };
    let univ = match meta_univ {
        Some(u) => u,
        None => match parsed.univ {
            Some(u) => u,
            None => String::from_str("(미식별)"),
        },
    };
    let license = license_status_of(&license_status);
    let mut url = String::from_str("data/raw/");
    url.append(key.as_str());
    let source = Source {
        filename,
        format,
        url,
        size_bytes,
        official_url,
        license_status: license,
        note,
    };
    let (rows, warnings) = outcome_body(outcome);
    let id_univ = univ.clone();
    finish_document(
        id_univ.as_str(),
        univ,
        region,
        parsed.year,
        parsed.track,
        parsed.selection_types,
        source,
        rows,
        warnings,
    )
}

/// The document for a scanned file, given what extracting its body gave.
pub fn assemble_document(entry: FileEntry, outcome: BodyOutcome) -> (doc: Document)
    ensures
        is_document_body(
            doc,
            univ_of_entry(entry.meta.univ.deep_view(), entry.parents@, entry.stem@),
            year_of_stem(entry.stem@),
            track_of(entry.stem@),
            univ_of_entry(entry.meta.univ.deep_view(), entry.parents@, entry.stem@),
            outcome_rows(outcome),
            outcome_warnings(outcome),
        ),
        doc.region@ == region_of(entry.parents@),
        doc.selection_types.deep_view() == selection_types_of(entry.stem@),
        doc.source.filename == entry.filename,
        doc.source.format == entry.format,
        doc.source.url@ == "data/raw/"@ + entry.key@,
        doc.source.size_bytes == entry.size_bytes,
        doc.source.official_url == entry.meta.official_url,
        doc.source.license_status == license_of(entry.meta.license_status.deep_view()),
        doc.source.note == entry.meta.note,
{
    let parsed = parse(entry.parents.as_slice(), entry.stem.as_str());
    document_from_parsed(entry, parsed, outcome)
}

// ---------------------------------------------------------------------------
// Inspecting one file
// ---------------------------------------------------------------------------

/// One file given for inspection, anywhere.
pub struct InspectEntry {
    /// All components of the file's path.
    pub components: Vec<String>,
    /// The file name without its extension.
    pub stem: String,
    pub filename: String,
    /// The extension in lower case (see `inspect_format`).
    pub format: String,
    /// The path as displayed.
    pub url: String,
    pub size_bytes: u64,
}

/// The format recorded for an inspected file: its extension in lower case.
pub fn inspect_format(ext: &str) -> (res: String)
    ensures
        res@ == lowercase(ext@),
{
    to_lowercase(ext)
}

/// A spreadsheet format, read as a workbook.
pub open spec fn is_workbook(format: Seq<char>) -> bool {
    format == "xlsx"@ || format == "xls"@
}

/// Whether a file of `format` is read as a workbook.
pub fn is_workbook_format(format: &str) -> (res: bool)
    ensures
        res == is_workbook(format@),
{
    str_equal(format, "xlsx") || str_equal(format, "xls")
}

/// The note for a PDF given for inspection.
pub open spec fn inspect_pdf_note() -> Seq<char> {
    "inspect는 단일 파일 검사용입니다. PDF는 `python3 scripts/preprocess_pdf.py data` 실행 후 `extractor scan data --out ...`로 처리하세요."@
}

/// The rows inspection reads: those of the workbook, for a spreadsheet.
pub open spec fn inspect_rows(format: Seq<char>, workbook: Option<XlsxExtraction>) -> Seq<Row> {
    if is_workbook(format) {
        match workbook {
            Some(x) => x.rows@,
            None => Seq::empty(),
        }
    } else {
        Seq::empty()
    }
}

/// The warnings of inspection before the sanity check.
pub open spec fn inspect_warnings(format: Seq<char>, workbook: Option<XlsxExtraction>) -> Seq<
    Seq<char>,
> {
    if format == "pdf"@ {
        seq![inspect_pdf_note()]
    } else if is_workbook(format) {
        match workbook {
            Some(x) => x.warnings.deep_view(),
            None => Seq::empty(),
        }
    } else {
        seq!["미지원 포맷: "@ + format]
    }
}

/// The document for one inspected file, given what its name says
/// (`parsed`) and, for a workbook format, what reading the workbook gave.
pub fn inspect_parsed(entry: InspectEntry, parsed: ParsedName, workbook: Option<XlsxExtraction>) -> (doc:
    Document)
    ensures
        is_document_body(
            doc,
            match parsed.univ.deep_view() {
                Some(u) => u,
                None => Seq::empty(),
            },
            parsed.year,
            parsed.track,
            match parsed.univ.deep_view() {
                Some(u) => u,
                None => "?"@,
            },
            inspect_rows(entry.format@, workbook),
            inspect_warnings(entry.format@, workbook),
        ),
        doc.region@ == "(inspect)"@,
        doc.selection_types == parsed.selection_types,
        doc.source.filename == entry.filename,
        doc.source.format == entry.format,
        doc.source.url == entry.url,
        doc.source.size_bytes == entry.size_bytes,
        doc.source.official_url is None,
        doc.source.license_status == LicenseStatus::Pending,
        doc.source.note is None,
{
    let InspectEntry { components: _, stem: _, filename, format, url, size_bytes } = entry;
    let ghost f = format@;
    let ghost wb = workbook;
    let mut rows: Vec<Row> = Vec::new();
    let mut warnings: Vec<String> = Vec::new();
    if str_equal(format.as_str(), "pdf") {
        warnings.push(
            String::from_str(
                "inspect는 단일 파일 검사용입니다. PDF는 `python3 scripts/preprocess_pdf.py data` 실행 후 `extractor scan data --out ...`로 처리하세요.",
            ),
        );
        proof {
            reveal_strlit("pdf");
            reveal_strlit("xlsx");
            reveal_strlit("xls");
            assert("pdf"@.len() == 3 && "xlsx"@.len() == 4);
            assert("pdf"@[0] == 'p' && "xls"@[0] == 'x');
        }
    } else if is_workbook_format(format.as_str()) {
        match workbook {
            Some(x) => {
                rows = x.rows;
                warnings = x.warnings;
            },
            None => {},
        }
    } else {
        let mut msg = String::from_str("미지원 포맷: ");
        msg.append(format.as_str());
        warnings.push(msg);
    }
    assert(rows@ =~= inspect_rows(f, wb));
    assert(warnings.deep_view() =~= inspect_warnings(f, wb));
    let (univ, id_univ) = match parsed.univ {
        Some(u) => {
            let c = u.clone();
            (u, c)
        },
        None => (String::new(), String::from_str("?")),
    };
    let source = Source {
        filename,
        format,
        url,
        size_bytes,
        official_url: None,
        license_status: LicenseStatus::Pending,
        note: None,
    };
    finish_document(
        id_univ.as_str(),
        univ,
        String::from_str("(inspect)"),
        parsed.year,
        parsed.track,
        parsed.selection_types,
        source,
        rows,
        warnings,
    )
}

/// The document for one inspected file; `workbook` is what reading it as a
/// workbook gave, for a workbook format.
pub fn inspect_document(entry: InspectEntry, workbook: Option<XlsxExtraction>) -> (doc: Document)
    ensures
        ({
            let univ = parsed_univ(entry.components@, entry.stem@);
            is_document_body(
                doc,
                match univ {
                    Some(u) => u,
                    None => Seq::empty(),
                },
                year_of_stem(entry.stem@),
                track_of(entry.stem@),
                match univ {
                    Some(u) => u,
                    None => "?"@,
                },
                inspect_rows(entry.format@, workbook),
                inspect_warnings(entry.format@, workbook),
            )
        }),
        doc.region@ == "(inspect)"@,
        doc.selection_types.deep_view() == selection_types_of(entry.stem@),
        doc.source.filename == entry.filename,
        doc.source.format == entry.format,
        doc.source.url == entry.url,
        doc.source.size_bytes == entry.size_bytes,
        doc.source.official_url is None,
        doc.source.license_status == LicenseStatus::Pending,
        doc.source.note is None,
{
    let parsed = parse(entry.components.as_slice(), entry.stem.as_str());
    inspect_parsed(entry, parsed, workbook)
}

// ---------------------------------------------------------------------------
// Report
// ---------------------------------------------------------------------------

/// Seconds since the Unix epoch by `std::time::SystemTime::now`, or none
/// when the clock is before the epoch. Nothing is stated of the value.
#[verifier::external_body]
fn unix_seconds_now() -> Option<u64> {
    match std::time::SystemTime::now().duration_since(std::time::UNIX_EPOCH) {
        Ok(d) => Some(d.as_secs()),
        Err(_) => None,
    }
}

/// The time stamp for `secs` seconds since the Unix epoch: "unix:" and the
/// number.
pub fn iso_from_secs(secs: u64) -> (res: String)
    ensures
        res@ == "unix:"@ + decimal(secs as nat),
{
    let mut s = String::from_str("unix:");
    push_decimal(&mut s, secs);
    s
}

/// The seconds a clock reading gives: 0 for a clock before the epoch.
pub open spec fn secs_or_zero(clock: Option<u64>) -> u64 {
    match clock {
        Some(s) => s,
        None => 0,
    }
}

/// The time stamp for a clock reading (seconds since the Unix epoch, none
/// before it): "unix:" and the seconds, 0 before the epoch.
pub fn iso_from_clock(clock: Option<u64>) -> (res: String)
    ensures
        res@ == "unix:"@ + decimal(secs_or_zero(clock) as nat),
{
    let secs = match clock {
        Some(s) => s,
        None => 0,
    };
    iso_from_secs(secs)
}

/// The time stamp of now (see `iso_from_clock`).
pub fn chrono_now_iso() -> (res: String)
    ensures
        exists|clock: Option<u64>| res@ == "unix:"@ + decimal(secs_or_zero(clock) as nat),
{
    let clock = unix_seconds_now();
    iso_from_clock(clock)
}

/// The report of a scan: schema version 1, a time stamp, the summary of the
/// documents (with the given mean confidence) and the documents.
pub fn make_report(documents: Vec<Document>, avg_confidence: F32Bits) -> (res: Report)
    requires
        rows_total(documents@) <= usize::MAX,
    ensures
        res.schema_version == 1,
        exists|clock: Option<u64>| res.generated_at@ == "unix:"@ + decimal(
            secs_or_zero(clock) as nat,
        ),
        res.summary.total_documents == documents@.len(),
        res.summary.total_rows == rows_total(documents@),
        res.summary.avg_confidence == avg_confidence,
        res.summary.by_region@ == tally(region_keys(documents@)),
        res.summary.by_format@ == tally(format_keys(documents@)),
        res.documents == documents,
{
    let generated_at = chrono_now_iso();
    let summary = build_summary(&documents, avg_confidence);
    Report { schema_version: 1, generated_at, summary, documents }
}

} // verus!
