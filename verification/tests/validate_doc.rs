use extractor::model::{Document, F32Bits, LicenseStatus, Row, Source};
use extractor::validate::{check, sanity_row};

fn b(x: f32) -> F32Bits {
    F32Bits { bits: x.to_bits() }
}

fn row(rate: Option<f32>, grade: Option<f32>, applicants: Option<u32>) -> Row {
    Row {
        department: "학과".to_string(),
        selection: None,
        applicants,
        competition_rate: rate.map(b),
        grade_50pct: grade.map(b),
        grade_70pct: None,
        grade_avg: None,
        grade_min: None,
        raw_cells: vec![],
        extraction_confidence: b(0.4),
        page: None,
    }
}

fn doc(univ: &str, year: Option<u32>, rows: Vec<Row>) -> Document {
    Document {
        id: "id".to_string(),
        univ: univ.to_string(),
        region: "강원".to_string(),
        year,
        track: None,
        selection_types: vec![],
        source: Source {
            filename: "f.pdf".to_string(),
            format: "pdf".to_string(),
            url: "data/raw/f.pdf".to_string(),
            size_bytes: 3,
            official_url: None,
            license_status: LicenseStatus::Pending,
            note: None,
        },
        rows,
        ocr_text: None,
        warnings: vec!["first".to_string()],
    }
}

#[test]
fn sanity_ranges() {
    assert!(sanity_row(&row(Some(0.0), Some(1.0), Some(1_000_000))));
    assert!(sanity_row(&row(Some(-0.0), Some(9.0), None)));
    assert!(!sanity_row(&row(None, Some(9.3), None)));
    assert!(!sanity_row(&row(None, Some(9.5), None)));
    assert!(sanity_row(&row(Some(500.0), None, None)));
    assert!(!sanity_row(&row(Some(500.1), None, None)));
    assert!(!sanity_row(&row(Some(-0.5), None, None)));
    assert!(!sanity_row(&row(Some(f32::NAN), None, None)));
    assert!(!sanity_row(&row(None, Some(9.6), None)));
    assert!(!sanity_row(&row(None, Some(0.0), None)));
    assert!(!sanity_row(&row(None, None, Some(1_000_001))));
}

#[test]
fn check_appends_warnings_in_order() {
    let mut d = doc("", None, vec![row(Some(-1.0), None, None), row(None, Some(3.0), None), row(None, Some(12.0), None)]);
    check(&mut d);
    assert_eq!(
        d.warnings,
        vec![
            "first",
            "대학명을 식별하지 못했습니다.",
            "연도를 식별하지 못했습니다.",
            "2개 행이 sanity 검증 실패 (등급 범위·경쟁률 음수 등).",
        ]
    );
    assert_eq!(d.rows.len(), 3);
}

#[test]
fn check_adds_nothing_for_a_sound_document() {
    let mut d = doc("한림대", Some(2026), vec![row(Some(3.5), Some(2.0), Some(40))]);
    check(&mut d);
    assert_eq!(d.warnings, vec!["first"]);
}

#[test]
fn grade_above_nine_is_flagged() {
    let mut r = row(None, None, None);
    r.department = "경영학과".to_string();
    r.grade_avg = Some(b(9.3));
    let mut d = doc("한림대", Some(2026), vec![r]);
    d.warnings = vec![];
    check(&mut d);
    assert_eq!(d.warnings, vec!["1개 행이 sanity 검증 실패 (등급 범위·경쟁률 음수 등)."]);
}
