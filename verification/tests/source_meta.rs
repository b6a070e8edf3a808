use extractor::model::Track;
use extractor::source_meta::{
    extract_univ, guess_univ_from_matches, normalize_univ, parse, parse_with_matches,
    year_from_match,
};

#[test]
fn extracts_with_korean_separator() {
    let p = parse(&[], "한림대ㅣ2026 수시 입결");
    assert_eq!(p.univ.as_deref(), Some("한림대"));
    assert_eq!(p.year, Some(2026));
    assert_eq!(p.track, Track::Susi);
}

#[test]
fn extracts_selection_types() {
    let p = parse(&[], "동의대ㅣ2026학년도 수시모집 학생부교과, 실기실적 전형결과(최종)");
    assert!(p.selection_types.contains(&"학생부교과".to_string()));
    assert!(p.selection_types.contains(&"실기/예체능".to_string()));
}

#[test]
fn falls_back_to_folder() {
    let p = parse(
        &["경인".to_string(), "2026 아주대 입결".to_string()],
        "KakaoTalk_20260420_162653595",
    );
    assert_eq!(p.univ.as_deref(), Some("아주대"));
}

#[test]
fn separator_head_is_trimmed() {
    assert_eq!(extract_univ("  강원대학교 \u{3000}ㅣ 2025 정시").as_deref(), Some("강원대학교"));
}

#[test]
fn empty_head_falls_back_to_first_token() {
    // Nothing before the separator: the first token is "ㅣ2026" which does not end in 대/교.
    assert_eq!(extract_univ(" ㅣ2026 수시"), None);
    assert_eq!(extract_univ("서울교_2026-수시"), Some("서울교".to_string()));
    assert_eq!(extract_univ("연세대-2026"), Some("연세대".to_string()));
    assert_eq!(extract_univ("입결 연세대"), None);
    assert_eq!(extract_univ(""), None);
}

#[test]
fn normalize_univ_trims_only() {
    assert_eq!(normalize_univ("\t한림대학교 "), "한림대학교");
}

#[test]
fn year_needs_ascii_digits() {
    assert_eq!(year_from_match(&Some("2026".to_string())), Some(2026));
    assert_eq!(year_from_match(&Some("+2026".to_string())), Some(2026));
    assert_eq!(year_from_match(&Some("20٢٦".to_string())), None);
    assert_eq!(year_from_match(&None), None);
    // The leftmost match decides, even when it does not read as a number.
    assert_eq!(parse(&[], "20٢٦ 2025 정시").year, None);
    assert_eq!(parse(&[], "KakaoTalk_20260420").year, Some(2026));
    assert_eq!(parse(&[], "입결 1999").year, None);
}

#[test]
fn track_prefers_susi() {
    assert_eq!(parse(&[], "정시 수시").track, Track::Susi);
    assert_eq!(parse(&[], "정시모집").track, Track::Jeongsi);
    assert_eq!(parse(&[], "입결").track, Track::Unknown);
}

#[test]
fn selection_types_order_and_jeongsi_default() {
    let p = parse(&[], "정시 논술 종합형 교과전형 예체능");
    assert_eq!(p.selection_types, vec!["학생부교과", "학생부종합", "논술", "실기/예체능"]);
    let q = parse(&[], "영남대ㅣ2026학년도 정시모집 입학자 성적");
    assert_eq!(q.selection_types, vec!["정시"]);
    assert!(parse(&[], "입결").selection_types.is_empty());
}

#[test]
fn folder_nearest_file_wins() {
    let p = parse(
        &["부산대 자료".to_string(), "2026 아주대학교 입결".to_string(), "기타".to_string()],
        "scan_001",
    );
    assert_eq!(p.univ.as_deref(), Some("아주대학교"));
    let none = parse(&["경인".to_string()], "scan_001");
    assert_eq!(none.univ, None);
}

#[test]
fn matches_given_by_hand() {
    let m = vec![Some("가대".to_string()), None];
    assert_eq!(guess_univ_from_matches(&m).as_deref(), Some("가대"));
    assert_eq!(guess_univ_from_matches(&vec![None, None]), None);
    let p = parse_with_matches("scan", &Some("2030".to_string()), &m);
    assert_eq!(p.univ.as_deref(), Some("가대"));
    assert_eq!(p.year, Some(2030));
    assert_eq!(p.track, Track::Unknown);
}

#[test]
fn brackets_end_the_first_token() {
    let p = parse(&[], "서울대[2026 정시]");
    assert_eq!(p.univ.as_deref(), Some("서울대"));
    assert_eq!(extract_univ("고려대]x"), Some("고려대".to_string()));
    assert_eq!(extract_univ("[연세대] 2026"), None);
}
