use extractor::model::F32Bits;
use extractor::pdf::{clamp_confidence, extract, preprocessed_file_name, PreprocessFile, PreprocessLookup, PreprocessRow};

fn b(x: f32) -> F32Bits {
    F32Bits { bits: x.to_bits() }
}

#[test]
fn missing_preprocess_gives_no_rows_and_a_warning() {
    let x = extract(PreprocessLookup::Missing { json_path: "data/preprocessed/a.pdf.rows.json".to_string() })
        .ok()
        .unwrap();
    assert!(x.rows.is_empty());
    assert_eq!(
        x.warnings,
        vec!["preprocess 결과가 없습니다: data/preprocessed/a.pdf.rows.json — `python3 scripts/preprocess_pdf.py data` 실행 필요"]
    );
}

#[test]
fn other_lookups() {
    let x = extract(PreprocessLookup::NotUnderRaw { pdf_path: "/tmp/a.pdf".to_string() }).ok().unwrap();
    assert!(x.rows.is_empty());
    assert_eq!(x.warnings, vec!["PDF 경로가 data/raw 하위가 아닙니다: /tmp/a.pdf"]);
    let y = extract(PreprocessLookup::Unparsable { error: "EOF".to_string() }).ok().unwrap();
    assert_eq!(y.warnings, vec!["preprocess JSON 파싱 실패: EOF"]);
    assert!(extract(PreprocessLookup::Unreadable { error: "denied".to_string() }).err() == Some("denied".to_string()));
}

#[test]
fn parsed_rows_are_carried_over() {
    let file = PreprocessFile {
        rows: vec![
            PreprocessRow {
                department: "경영학과".to_string(),
                applicants: Some(30),
                competition_rate: Some(b(5.25)),
                grade_50pct: Some(b(2.5)),
                grade_70pct: Some(b(3.0)),
                grade_min: None,
                raw_line: "경영학과 30 5.25 2.5 3.0".to_string(),
                extraction_confidence: b(0.9),
                page: Some(2),
            },
            PreprocessRow {
                department: "".to_string(),
                applicants: None,
                competition_rate: None,
                grade_50pct: None,
                grade_70pct: None,
                grade_min: Some(b(4.0)),
                raw_line: String::new(),
                extraction_confidence: b(0.0),
                page: None,
            },
        ],
        warnings: vec!["page 3 skipped".to_string()],
    };
    let x = extract(PreprocessLookup::Parsed { file }).ok().unwrap();
    assert_eq!(x.warnings, vec!["page 3 skipped"]);
    assert_eq!(x.rows.len(), 2);
    assert_eq!(x.rows[0].department, "경영학과");
    assert_eq!(x.rows[0].selection, None);
    assert_eq!(x.rows[0].grade_avg, None);
    assert_eq!(x.rows[0].competition_rate, Some(b(5.25)));
    assert_eq!(x.rows[0].raw_cells, vec!["경영학과 30 5.25 2.5 3.0"]);
    assert_eq!(x.rows[0].page, Some(2));
    assert!(x.rows[1].raw_cells.is_empty());
    assert_eq!(x.rows[1].grade_min, Some(b(4.0)));
}

fn prow(dep: &str, grade: f32, confidence: f32) -> PreprocessRow {
    PreprocessRow {
        department: dep.to_string(),
        applicants: None,
        competition_rate: None,
        grade_50pct: Some(b(grade)),
        grade_70pct: None,
        grade_min: None,
        raw_line: String::new(),
        extraction_confidence: b(confidence),
        page: Some(1),
    }
}

#[test]
fn confidences_are_brought_into_unit_range() {
    assert_eq!(clamp_confidence(b(1.5)), b(1.0));
    assert_eq!(clamp_confidence(b(f32::INFINITY)), b(1.0));
    assert_eq!(clamp_confidence(b(-0.2)), b(0.0));
    assert_eq!(clamp_confidence(b(f32::NAN)), b(0.0));
    assert_eq!(clamp_confidence(b(0.35)), b(0.35));
    assert_eq!(clamp_confidence(b(1.0)), b(1.0));
    let file = PreprocessFile { rows: vec![prow("a", 2.0, 1.5), prow("b", 2.0, -3.0), prow("c", 2.0, 0.5)], warnings: vec![] };
    let x = extract(PreprocessLookup::Parsed { file }).ok().unwrap();
    let c: Vec<f32> = x.rows.iter().map(|r| f32::from_bits(r.extraction_confidence.bits)).collect();
    assert_eq!(c, vec![1.0, 0.0, 0.5]);
    for r in &x.rows {
        let v = f32::from_bits(r.extraction_confidence.bits);
        assert!((0.0..=1.0).contains(&v));
    }
}

#[test]
fn preprocessed_name() {
    assert_eq!(preprocessed_file_name("한림대ㅣ2026 수시 입결.pdf"), "한림대ㅣ2026 수시 입결.pdf.rows.json");
    assert_eq!(preprocessed_file_name(""), ".rows.json");
}
