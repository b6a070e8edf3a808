use extractor::model::{F32Bits, Row};
use extractor::xlsx::{extract, grades_ascending, row_from_line, CellLine, SheetRead, WorkbookRead};

fn numbers(cells: &[String]) -> Vec<F32Bits> {
    cells
        .iter()
        .filter_map(|c| c.replace(',', "").parse::<f32>().ok())
        .map(|f| F32Bits { bits: f.to_bits() })
        .collect()
}

fn line(cells: &[&str]) -> CellLine {
    let cells: Vec<String> = cells.iter().map(|s| s.to_string()).collect();
    let numbers = numbers(&cells);
    CellLine { cells, numbers }
}

/// The row heuristic written directly on `f32` values.
struct Reference {
    department: String,
    selection: Option<String>,
    applicants: Option<u32>,
    competition_rate: Option<f32>,
    grades: [Option<f32>; 4],
    confidence: f32,
}

fn reference(cells: &[String]) -> Option<Reference> {
    if cells.is_empty() {
        return None;
    }
    let first = cells.iter().find(|c| !c.trim().is_empty())?;
    let starts_korean = first.chars().next().map(|c| ('가'..='힣').contains(&c)).unwrap_or(false);
    if !starts_korean {
        return None;
    }
    let nums: Vec<f32> = cells.iter().filter_map(|c| c.replace(',', "").parse::<f32>().ok()).collect();
    if nums.len() < 2 {
        return None;
    }
    let mut grades: Vec<f32> = nums.iter().copied().filter(|n| (1.0..=9.5).contains(n)).collect();
    grades.sort_by(|a, b| a.partial_cmp(b).unwrap());
    let competition_rate = nums
        .iter()
        .copied()
        .find(|n| *n >= 0.5 && *n < 1000.0 && n.fract() != 0.0 && !((1.0..=9.5).contains(n)));
    let applicants = nums
        .iter()
        .copied()
        .find(|n| n.fract() == 0.0 && *n >= 10.0 && *n < 100000.0)
        .map(|n| n as u32);
    Some(Reference {
        department: first.trim().to_string(),
        selection: cells.get(1).cloned().filter(|s| !s.is_empty()),
        applicants,
        competition_rate,
        grades: [grades.first().copied(), grades.get(1).copied(), grades.get(2).copied(), grades.last().copied()],
        confidence: if nums.len() >= 4 { 0.7 } else { 0.4 },
    })
}

fn bits(x: Option<F32Bits>) -> Option<u32> {
    x.map(|b| b.bits)
}

fn fbits(x: Option<f32>) -> Option<u32> {
    x.map(|f| f.to_bits())
}

fn same(r: &Row, e: &Reference, cells: &[String]) {
    assert_eq!(r.department, e.department);
    assert_eq!(r.selection, e.selection);
    assert_eq!(r.applicants, e.applicants, "{:?}", cells);
    assert_eq!(bits(r.competition_rate), fbits(e.competition_rate), "{:?}", cells);
    assert_eq!(bits(r.grade_50pct), fbits(e.grades[0]));
    assert_eq!(bits(r.grade_70pct), fbits(e.grades[1]));
    assert_eq!(bits(r.grade_avg), fbits(e.grades[2]));
    assert_eq!(bits(r.grade_min), fbits(e.grades[3]));
    assert_eq!(r.extraction_confidence.bits, e.confidence.to_bits());
    assert_eq!(r.raw_cells, cells);
    assert_eq!(r.page, None);
}

fn compare(cells: &[&str]) {
    let l = line(cells);
    let owned = l.cells.clone();
    let got = row_from_line(l);
    match (got, reference(&owned)) {
        (Some(r), Some(e)) => same(&r, &e, &owned),
        (None, None) => {}
        (g, e) => panic!("{:?}: got {} expected {}", cells, g.is_some(), e.is_some()),
    }
}

#[test]
fn typical_lines() {
    let l = line(&["국어국문학과", "교과", "25", "7.5", "3.21", "2.85", "4.1"]);
    let r = row_from_line(l).unwrap();
    assert_eq!(r.department, "국어국문학과");
    assert_eq!(r.selection.as_deref(), Some("교과"));
    assert_eq!(r.applicants, Some(25));
    assert_eq!(r.competition_rate, None);
    assert_eq!(r.grade_50pct.map(|b| f32::from_bits(b.bits)), Some(2.85));
    assert_eq!(r.grade_70pct.map(|b| f32::from_bits(b.bits)), Some(3.21));
    assert_eq!(r.grade_avg.map(|b| f32::from_bits(b.bits)), Some(4.1));
    assert_eq!(r.grade_min.map(|b| f32::from_bits(b.bits)), Some(7.5));
    assert_eq!(f32::from_bits(r.extraction_confidence.bits), 0.7);
}

#[test]
fn matches_float_heuristic() {
    let cases: Vec<Vec<&str>> = vec![
        vec!["국어국문학과", "교과", "25", "7.5", "3.21", "2.85", "4.1"],
        vec!["  ", "", " 경영학과 ", "1,234", "12.5", "0.75", "9.5"],
        vec!["기계공학", "", "10", "999.5", "1000.5", "0.5", "0.49"],
        vec!["간호", "종합", "99999", "100000", "3"],
        vec!["Korean", "1", "2"],
        vec![" 한글", "1", "2"],
        vec!["힣", "1", "2"],
        vec!["가", "9.50001", "1.0", "10.0", "10.5"],
        vec!["학과", "NaN", "inf", "-5.5", "1e2", "2.5e0"],
        vec!["학과", "3"],
        vec![],
        vec!["", " "],
        vec!["학과", "16777216", "8388607.5", "123.25", "131071.5"],
        vec!["학과", "7", "7", "2", "2", "1", "9"],
        vec!["학과", "-0", "0", "0.5", "1"],
        vec!["학과", "+11", "11.0", "11.000001", "500.75"],
    ];
    for c in cases {
        compare(&c);
    }
}

#[test]
fn many_numbers_match_float_heuristic() {
    let mut seed: u32 = 12345;
    for _ in 0..400 {
        let mut cells = vec!["학과".to_string()];
        for _ in 0..6 {
            seed = seed.wrapping_mul(1103515245).wrapping_add(12345);
            let v = (seed >> 8) % 200000;
            let frac = (seed >> 3) % 4;
            let text = match frac {
                0 => format!("{}", v),
                1 => format!("{}.5", v % 1200),
                2 => format!("{}.{}", v % 12, v % 100),
                _ => format!("{}.25", v % 11),
            };
            cells.push(text);
        }
        let refs: Vec<&str> = cells.iter().map(|s| s.as_str()).collect();
        compare(&refs);
    }
}

#[test]
fn grades_sorted_ascending() {
    let nums: Vec<F32Bits> = [9.0f32, 1.5, 12.0, 1.5, 0.3, 4.0].iter().map(|f| F32Bits { bits: f.to_bits() }).collect();
    let g: Vec<f32> = grades_ascending(&nums).iter().map(|b| f32::from_bits(b.bits)).collect();
    assert_eq!(g, vec![1.5, 1.5, 4.0, 9.0]);
}

#[test]
fn workbook_warnings() {
    let failed = extract(WorkbookRead::OpenFailed { error: "zip error".to_string() });
    assert!(failed.rows.is_empty());
    assert_eq!(failed.warnings, vec!["XLSX 열기 실패: zip error"]);

    let failed_first = extract(WorkbookRead::Opened {
        first_sheet: Some(SheetRead::Failed { name: "표1".to_string(), error: "bad".to_string() }),
    });
    assert!(failed_first.rows.is_empty());
    assert_eq!(
        failed_first.warnings,
        vec!["시트 '표1' 읽기 실패: bad", "XLSX 표 추출 실패: 데이터 행을 인식하지 못했습니다."]
    );

    let x = extract(WorkbookRead::Opened {
        first_sheet: Some(SheetRead::Lines(vec![
            line(&["모집단위", "전형"]),
            line(&["수학과", "2.5", "3.5"]),
            line(&["물리학과", "12", "1.5"]),
        ])),
    });
    assert_eq!(x.rows.len(), 2);
    assert_eq!(x.rows[0].department, "수학과");
    assert_eq!(x.rows[1].department, "물리학과");
    assert!(x.warnings.is_empty());

    let no_sheet = extract(WorkbookRead::Opened { first_sheet: None });
    assert!(no_sheet.rows.is_empty());
    assert_eq!(no_sheet.warnings, vec!["XLSX 표 추출 실패: 데이터 행을 인식하지 못했습니다."]);

    let empty = extract(WorkbookRead::Opened { first_sheet: Some(SheetRead::Lines(vec![line(&["합계", "1"])])) });
    assert!(empty.rows.is_empty());
    assert_eq!(empty.warnings, vec!["XLSX 표 추출 실패: 데이터 행을 인식하지 못했습니다."]);
}
