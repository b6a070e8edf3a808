use extractor::model::{F32Bits, Row, Track};
use extractor::normalize::{is_grade, polish, slug, slug_basis_string, slug_from_digest};
use sha2::{Digest, Sha256};

fn b(x: f32) -> F32Bits {
    F32Bits { bits: x.to_bits() }
}

fn row(dep: &str, grades: [Option<f32>; 4]) -> Row {
    Row {
        department: dep.to_string(),
        selection: Some("교과".to_string()),
        applicants: Some(12),
        competition_rate: Some(b(-3.0)),
        grade_50pct: grades[0].map(b),
        grade_70pct: grades[1].map(b),
        grade_avg: grades[2].map(b),
        grade_min: grades[3].map(b),
        raw_cells: vec!["x".to_string()],
        extraction_confidence: b(0.5),
        page: Some(3),
    }
}

#[test]
fn grade_range_matches_float_range() {
    let samples = [0.0f32, -0.0, 0.99999994, 1.0, 1.0000001, 5.5, 9.5, 9.500001, 10.0, -1.0,
                   f32::NAN, f32::INFINITY, f32::NEG_INFINITY, f32::MIN_POSITIVE, -9.5];
    for x in samples {
        assert_eq!(is_grade(b(x)), (1.0..=9.5).contains(&x), "{x}");
    }
}

#[test]
fn polish_filters_trims_and_drops_noise() {
    let rows = vec![
        row("", [Some(2.0), None, None, None]),
        row("  국어교육과 ", [Some(0.5), Some(3.25), Some(9.6), Some(9.5)]),
        row(" ", [None, None, None, None]),
    ];
    let out = polish(rows);
    assert_eq!(out.len(), 2);
    assert_eq!(out[0].department, "국어교육과");
    assert_eq!(out[0].grade_50pct, None);
    assert_eq!(out[0].grade_70pct, Some(b(3.25)));
    assert_eq!(out[0].grade_avg, None);
    assert_eq!(out[0].grade_min, Some(b(9.5)));
    assert_eq!(out[0].competition_rate, Some(b(-3.0)));
    assert_eq!(out[0].page, Some(3));
    // A department of white space survives as an empty name.
    assert_eq!(out[1].department, "");
}

fn expected_slug(univ: &str, year: Option<u32>, track: &str) -> String {
    let basis = format!("{}|{}|{}", univ, year.unwrap_or(0), track);
    let mut h = Sha256::new();
    h.update(basis.as_bytes());
    let digest = h.finalize();
    format!("{}-{}-{}", track, year.unwrap_or(0), hex::encode(&digest[..4]))
}

#[test]
fn slug_is_track_year_and_hash() {
    assert_eq!(slug("한림대", Some(2026), &Track::Susi), expected_slug("한림대", Some(2026), "susi"));
    assert_eq!(slug("?", None, &Track::Unknown), expected_slug("?", None, "etc"));
    assert_eq!(slug("영남대", Some(2026), &Track::Jeongsi), expected_slug("영남대", Some(2026), "jeongsi"));
    // The same inputs give the same id; another university another one.
    assert_eq!(slug("a", Some(1), &Track::Susi), slug("a", Some(1), &Track::Susi));
    assert_ne!(slug("a", Some(1), &Track::Susi), slug("b", Some(1), &Track::Susi));
}

#[test]
fn slug_parts() {
    assert_eq!(slug_basis_string("한림대", Some(2026), &Track::Susi), "한림대|2026|susi");
    assert_eq!(slug_basis_string("", None, &Track::Unknown), "|0|etc");
    assert_eq!(slug_from_digest(Some(7), &Track::Jeongsi, &[0xde, 0xad, 0xbe, 0xef, 1]), "jeongsi-7-deadbeef");
}

#[test]
fn polishing_twice_changes_nothing() {
    let rows = vec![
        row(" 수학과", [Some(1.0), Some(12.0), None, Some(9.5)]),
        row("", [None, None, None, None]),
        row("물리학과 ", [Some(0.0), None, Some(4.5), None]),
    ];
    let once = polish(rows);
    let snapshot: Vec<(String, Option<F32Bits>, Option<F32Bits>, Option<F32Bits>, Option<F32Bits>)> = once
        .iter()
        .map(|r| (r.department.clone(), r.grade_50pct, r.grade_70pct, r.grade_avg, r.grade_min))
        .collect();
    let twice = polish(once);
    let again: Vec<_> = twice
        .iter()
        .map(|r| (r.department.clone(), r.grade_50pct, r.grade_70pct, r.grade_avg, r.grade_min))
        .collect();
    assert_eq!(snapshot, again);
}

#[test]
fn slug_shape_and_length() {
    for (univ, year, track, name) in [
        ("한림대", Some(2026), Track::Susi, "susi"),
        ("서울대학교", None, Track::Unknown, "etc"),
        ("x", Some(7), Track::Jeongsi, "jeongsi"),
    ] {
        let id = slug(univ, year, &track);
        let prefix = format!("{}-{}-", name, year.unwrap_or(0));
        assert!(id.starts_with(&prefix));
        assert_eq!(id.len(), prefix.len() + 8);
        assert!(id[prefix.len()..].chars().all(|c| c.is_ascii_digit() || ('a'..='f').contains(&c)));
    }
    assert_eq!(slug("한림대", None, &Track::Susi), slug("한림대", Some(0), &Track::Susi));
    let a = slug("가", Some(2026), &Track::Susi);
    let b = slug("아주 긴 대학교 이름", Some(2026), &Track::Susi);
    assert_eq!(a.len(), b.len());
    assert_eq!(a[..a.len() - 8], b[..b.len() - 8]);
}

#[test]
fn polishing_joined_lists() {
    let a = || vec![row(" 수학과", [Some(1.0), Some(12.0), None, None]), row("", [None, None, None, None])];
    let c = || vec![row("물리학과 ", [Some(0.0), None, Some(4.5), None])];
    let mut joined = a();
    joined.extend(c());
    let whole: Vec<_> = polish(joined).iter().map(|r| (r.department.clone(), r.grade_50pct, r.grade_70pct, r.grade_avg)).collect();
    let mut parts: Vec<_> = polish(a()).iter().map(|r| (r.department.clone(), r.grade_50pct, r.grade_70pct, r.grade_avg)).collect();
    parts.extend(polish(c()).iter().map(|r| (r.department.clone(), r.grade_50pct, r.grade_70pct, r.grade_avg)));
    assert_eq!(whole, parts);
    assert_eq!(whole.len(), 2);
}
