use extractor::model::{Document, F32Bits, LicenseStatus, Row, Track};
use extractor::normalize::slug;
use extractor::pdf::{extract as pdf_extract, PdfExtraction, PreprocessFile, PreprocessLookup, PreprocessRow};
use extractor::scan::{
    assemble_document, body_plan, chrono_now_iso, inspect_document, inspect_format, is_workbook_format,
    iso_from_clock, iso_from_secs, known_format, license_status_of, make_report, path_key, scan_format, BodyOutcome,
    BodyPlan, FileEntry, FileMetaOverride, InspectEntry,
};
use extractor::summary::{build_summary, CountMap};
use extractor::scan::{document_from_parsed, inspect_parsed};
use extractor::source_meta::ParsedName;
use extractor::xlsx::XlsxExtraction;

fn b(x: f32) -> F32Bits {
    F32Bits { bits: x.to_bits() }
}

fn row(dep: &str, grade: f32) -> Row {
    Row {
        department: dep.to_string(),
        selection: None,
        applicants: None,
        competition_rate: None,
        grade_50pct: Some(b(grade)),
        grade_70pct: None,
        grade_avg: None,
        grade_min: None,
        raw_cells: vec![],
        extraction_confidence: b(0.7),
        page: None,
    }
}

fn no_meta() -> FileMetaOverride {
    FileMetaOverride { univ: None, official_url: None, license_status: None, note: None }
}

#[test]
fn formats() {
    assert_eq!(scan_format("PDF").as_deref(), Some("pdf"));
    assert_eq!(scan_format("XLSX").as_deref(), Some("xlsx"));
    assert_eq!(scan_format("Hwpx").as_deref(), Some("hwpx"));
    assert_eq!(scan_format("txt"), None);
    assert_eq!(scan_format(""), None);
    assert_eq!(known_format("jpeg").as_deref(), Some("jpeg"));
    assert_eq!(known_format("JPEG"), None);
    assert!(is_workbook_format(&inspect_format("XLS")));
    assert!(!is_workbook_format(&inspect_format("pdf")));
    assert_eq!(inspect_format("JPG"), "jpg");
}

#[test]
fn keys_and_licenses() {
    assert_eq!(path_key("강원\\한림대ㅣ2026 수시 입결.pdf"), "강원/한림대ㅣ2026 수시 입결.pdf");
    assert_eq!(license_status_of(&Some("confirmed".to_string())), LicenseStatus::Confirmed);
    assert_eq!(license_status_of(&Some("link_only".to_string())), LicenseStatus::LinkOnly);
    assert_eq!(license_status_of(&Some("denied".to_string())), LicenseStatus::Denied);
    assert_eq!(license_status_of(&Some("Denied".to_string())), LicenseStatus::Pending);
    assert_eq!(license_status_of(&None), LicenseStatus::Pending);
    assert_eq!(LicenseStatus::default(), LicenseStatus::Pending);
}

#[test]
fn plans() {
    assert!(matches!(body_plan(true, LicenseStatus::Pending, "pdf"), BodyPlan::Pdf));
    assert!(matches!(body_plan(true, LicenseStatus::Confirmed, "xls"), BodyPlan::Xlsx));
    assert!(matches!(body_plan(true, LicenseStatus::Denied, "pdf"), BodyPlan::Nothing));
    assert!(matches!(body_plan(false, LicenseStatus::Confirmed, "pdf"), BodyPlan::Nothing));
    match body_plan(true, LicenseStatus::LinkOnly, "png") {
        BodyPlan::Note { message } => assert_eq!(message, "이미지 자료. OCR 결과는 data/ocr/에서 머지될 수 있습니다."),
        _ => panic!(),
    }
    match body_plan(true, LicenseStatus::Pending, "hwp") {
        BodyPlan::Note { message } => assert_eq!(message, "HWP는 사전 변환(scripts/hwp_to_pdf.sh) 후 PDF로 처리됩니다."),
        _ => panic!(),
    }
    match body_plan(true, LicenseStatus::Pending, "htm") {
        BodyPlan::Note { message } => assert_eq!(message, "HTML 자료는 본 추출기에서 미지원. 링크만 노출."),
        _ => panic!(),
    }
}

fn entry(parents: &[&str], stem: &str, meta: FileMetaOverride) -> FileEntry {
    FileEntry {
        parents: parents.iter().map(|s| s.to_string()).collect(),
        stem: stem.to_string(),
        filename: format!("{stem}.xlsx"),
        format: "xlsx".to_string(),
        key: format!("{}/{stem}.xlsx", parents.join("/")),
        size_bytes: 1024,
        meta,
    }
}

#[test]
fn scanned_document() {
    let x = XlsxExtraction { rows: vec![row(" 수학과 ", 2.0), row("", 3.0), row("물리", 12.0)], warnings: vec!["w".to_string()] };
    let d = assemble_document(entry(&["경상"], "영남대ㅣ2026학년도 정시모집 입학자 성적", no_meta()), BodyOutcome::Xlsx { extraction: x });
    assert_eq!(d.univ, "영남대");
    assert_eq!(d.region, "경상");
    assert_eq!(d.year, Some(2026));
    assert_eq!(d.track, Some(Track::Jeongsi));
    assert_eq!(d.selection_types, vec!["정시"]);
    assert_eq!(d.id, slug("영남대", Some(2026), &Track::Jeongsi));
    assert_eq!(d.source.url, "data/raw/경상/영남대ㅣ2026학년도 정시모집 입학자 성적.xlsx");
    assert_eq!(d.source.license_status, LicenseStatus::Pending);
    assert_eq!(d.rows.len(), 2);
    assert_eq!(d.rows[0].department, "수학과");
    assert_eq!(d.rows[1].grade_50pct, None);
    assert_eq!(d.warnings, vec!["w", "1개 행이 sanity 검증 실패 (등급 범위·경쟁률 음수 등)."]);
    assert_eq!(d.ocr_text, None);
}

#[test]
fn abnormal_pdf_grade_is_flagged() {
    let file = PreprocessFile {
        rows: vec![PreprocessRow {
            department: "경영학과".to_string(),
            applicants: None,
            competition_rate: None,
            grade_50pct: Some(b(12.0)),
            grade_70pct: None,
            grade_min: None,
            raw_line: String::new(),
            extraction_confidence: b(0.8),
            page: Some(1),
        }],
        warnings: vec![],
    };
    let result = pdf_extract(PreprocessLookup::Parsed { file });
    let mut e = entry(&["강원"], "한림대ㅣ2026 수시 입결", no_meta());
    e.format = "pdf".to_string();
    let d = assemble_document(e, BodyOutcome::Pdf { result });
    assert_eq!(d.rows.len(), 1);
    assert_eq!(d.rows[0].grade_50pct, None);
    assert_eq!(d.warnings, vec!["1개 행이 sanity 검증 실패 (등급 범위·경쟁률 음수 등)."]);
}

#[test]
fn clock_reading() {
    assert_eq!(iso_from_clock(None), "unix:0");
    assert_eq!(iso_from_clock(Some(42)), "unix:42");
}

#[test]
fn overrides_and_fallbacks() {
    let meta = FileMetaOverride {
        univ: Some("한림대학교".to_string()),
        official_url: Some("https://example.ac.kr".to_string()),
        license_status: Some("denied".to_string()),
        note: Some("n".to_string()),
    };
    let d = assemble_document(entry(&[], "scan", meta), BodyOutcome::Nothing);
    assert_eq!(d.univ, "한림대학교");
    assert_eq!(d.region, "기타");
    assert_eq!(d.source.license_status, LicenseStatus::Denied);
    assert_eq!(d.source.official_url.as_deref(), Some("https://example.ac.kr"));
    assert_eq!(d.warnings, vec!["연도를 식별하지 못했습니다."]);

    let e = assemble_document(entry(&["경인"], "KakaoTalk_1", no_meta()), BodyOutcome::Pdf { result: Err("io".to_string()) });
    assert_eq!(e.univ, "(미식별)");
    assert_eq!(e.track, Some(Track::Unknown));
    assert_eq!(e.warnings, vec!["PDF 처리 오류: io", "연도를 식별하지 못했습니다."]);

    let p = PdfExtraction { rows: vec![], warnings: vec!["p".to_string()] };
    let f = assemble_document(entry(&["경인", "2026 아주대 입결"], "KakaoTalk_20260420_162653595", no_meta()), BodyOutcome::Pdf { result: Ok(p) });
    assert_eq!(f.univ, "아주대");
    assert_eq!(f.year, Some(2026));
    assert_eq!(f.warnings, vec!["p"]);

    let n = assemble_document(entry(&["강원"], "한림대ㅣ2026 수시 입결", no_meta()), BodyOutcome::Note { message: "m".to_string() });
    assert_eq!(n.warnings, vec!["m"]);
    assert_eq!(n.track, Some(Track::Susi));
}

fn inspect(ext: &str, stem: &str) -> InspectEntry {
    InspectEntry {
        components: vec!["tmp".to_string(), format!("{stem}.{ext}")],
        stem: stem.to_string(),
        filename: format!("{stem}.{ext}"),
        format: inspect_format(ext),
        url: format!("tmp/{stem}.{ext}"),
        size_bytes: 5,
    }
}

#[test]
fn inspected_documents() {
    let d = inspect_document(inspect("PDF", "한림대ㅣ2026 수시 입결"), None);
    assert_eq!(d.source.format, "pdf");
    assert_eq!(d.region, "(inspect)");
    assert_eq!(d.univ, "한림대");
    assert_eq!(d.warnings, vec!["inspect는 단일 파일 검사용입니다. PDF는 `python3 scripts/preprocess_pdf.py data` 실행 후 `extractor scan data --out ...`로 처리하세요."]);

    let u = inspect_document(inspect("txt", "note"), None);
    assert_eq!(u.univ, "");
    assert_eq!(u.id, slug("?", None, &Track::Unknown));
    assert_eq!(u.warnings, vec!["미지원 포맷: txt", "대학명을 식별하지 못했습니다.", "연도를 식별하지 못했습니다."]);

    let x = XlsxExtraction { rows: vec![row("학과", 2.0)], warnings: vec![] };
    let s = inspect_document(inspect("xlsx", "동의대ㅣ2026"), Some(x));
    assert_eq!(s.rows.len(), 1);
    assert_eq!(s.warnings, Vec::<String>::new());
}

fn doc(region: &str, format: &str, rows: usize) -> Document {
    let mut e = entry(&[region], "한림대ㅣ2026 수시", no_meta());
    e.format = format.to_string();
    let x = XlsxExtraction { rows: (0..rows).map(|_| row("학과", 2.0)).collect(), warnings: vec![] };
    assemble_document(e, BodyOutcome::Xlsx { extraction: x })
}

#[test]
fn summary_counts() {
    let docs = vec![doc("강원", "pdf", 2), doc("경상", "xlsx", 0), doc("강원", "xlsx", 3), doc("강원", "png", 0)];
    let s = build_summary(&docs, b(0.55));
    assert_eq!(s.total_documents, 4);
    assert_eq!(s.total_rows, 5);
    assert_eq!(s.avg_confidence, b(0.55));
    assert_eq!(s.by_region.entries(), &vec![("강원".to_string(), 3), ("경상".to_string(), 1)]);
    assert_eq!(s.by_format.entries(), &vec![("pdf".to_string(), 1), ("png".to_string(), 1), ("xlsx".to_string(), 2)]);
    let total: usize = s.by_region.entries().iter().map(|e| e.1).sum();
    assert_eq!(total, s.total_documents);
}

#[test]
fn summary_ignores_document_order() {
    let docs = vec![doc("경상", "xlsx", 1), doc("강원", "pdf", 2), doc("강원", "png", 0)];
    let reversed = vec![doc("강원", "png", 0), doc("강원", "pdf", 2), doc("경상", "xlsx", 1)];
    let s1 = build_summary(&docs, b(0.5));
    let s2 = build_summary(&reversed, b(0.5));
    assert_eq!(s1.total_rows, s2.total_rows);
    assert_eq!(s1.by_region.entries(), s2.by_region.entries());
    assert_eq!(s1.by_format.entries(), s2.by_format.entries());
    assert_eq!(s1.by_region.entries(), &vec![("강원".to_string(), 2), ("경상".to_string(), 1)]);
}

#[test]
fn count_map_keeps_keys_sorted() {
    let m = CountMap::new().with_added(&"b".to_string(), 2).with_added(&"a".to_string(), 1).with_added(&"b".to_string(), 3);
    assert_eq!(m.entries(), &vec![("a".to_string(), 1), ("b".to_string(), 5)]);
}

#[test]
fn report() {
    let r = make_report(vec![doc("강원", "pdf", 1)], b(0.7));
    assert_eq!(r.schema_version, 1);
    assert!(r.generated_at.starts_with("unix:"));
    assert!(r.generated_at["unix:".len()..].parse::<u64>().unwrap() > 1_600_000_000);
    assert_eq!(r.summary.total_documents, 1);
    assert_eq!(r.documents.len(), 1);
    assert_eq!(iso_from_secs(1725029869), "unix:1725029869");
    assert!(chrono_now_iso().starts_with("unix:"));
}

#[test]
fn documents_from_given_names() {
    let parsed = ParsedName {
        univ: None,
        year: Some(2031),
        track: Track::Jeongsi,
        selection_types: vec!["논술".to_string()],
    };
    let d = document_from_parsed(entry(&["제주"], "x", no_meta()), parsed, BodyOutcome::Nothing);
    assert_eq!(d.univ, "(미식별)");
    assert_eq!(d.year, Some(2031));
    assert_eq!(d.selection_types, vec!["논술"]);
    assert_eq!(d.id, slug("(미식별)", Some(2031), &Track::Jeongsi));
    assert!(d.warnings.is_empty());

    let parsed = ParsedName { univ: Some("가대".to_string()), year: None, track: Track::Susi, selection_types: vec![] };
    let i = inspect_parsed(inspect("hwp", "y"), parsed, None);
    assert_eq!(i.univ, "가대");
    assert_eq!(i.id, slug("가대", None, &Track::Susi));
    assert_eq!(i.warnings, vec!["미지원 포맷: hwp", "연도를 식별하지 못했습니다."]);
}
