use citation_extraction::common::ArxivMatch;
use citation_extraction::extract::{extract_arxiv_matches_from_text, normalize_arxiv_id};

#[test]
fn test_extract_arxiv_modern_format() {
    let text = "arXiv:2403.03542";
    let matches = extract_arxiv_matches_from_text(text);
    assert_eq!(matches.len(), 1);
    assert_eq!(matches[0].id, "2403.03542");
    assert_eq!(matches[0].arxiv_doi, "10.48550/arXiv.2403.03542");
    assert!(matches[0].raw.contains("2403.03542"));
}

#[test]
fn test_extract_arxiv_with_version() {
    let text = "arXiv:2403.03542v2";
    let matches = extract_arxiv_matches_from_text(text);
    assert_eq!(matches.len(), 1);
    assert_eq!(matches[0].id, "2403.03542");
    assert_eq!(matches[0].arxiv_doi, "10.48550/arXiv.2403.03542");
}

#[test]
fn test_extract_arxiv_old_format() {
    let text = "arXiv:hep-ph/9901234";
    let matches = extract_arxiv_matches_from_text(text);
    assert_eq!(matches.len(), 1);
    assert_eq!(matches[0].id, "hep-ph/9901234");
    assert_eq!(matches[0].arxiv_doi, "10.48550/arXiv.hep-ph/9901234");
}

#[test]
fn test_extract_arxiv_old_format_with_dots() {
    let text = "arXiv:cs.DM/9910013";
    let matches = extract_arxiv_matches_from_text(text);
    assert_eq!(matches.len(), 1);
    assert_eq!(matches[0].id, "cs.dm/9910013");
}

#[test]
fn test_extract_arxiv_old_format_with_space() {
    let text = "arXiv:cs.DM/ 9910013";
    let matches = extract_arxiv_matches_from_text(text);
    assert_eq!(matches.len(), 1);
    assert_eq!(matches[0].id, "cs.dm/9910013");
}

#[test]
fn test_extract_arxiv_six_digit_decimal() {
    let text = "ArXiv. 2206.153252";
    let matches = extract_arxiv_matches_from_text(text);
    assert_eq!(matches.len(), 1);
    assert_eq!(matches[0].id, "2206.153252");
}

#[test]
fn test_extract_arxiv_from_doi() {
    let text = "10.48550/arXiv.2403.03542";
    let matches = extract_arxiv_matches_from_text(text);
    assert_eq!(matches.len(), 1);
    assert_eq!(matches[0].id, "2403.03542");
}

#[test]
fn test_extract_arxiv_from_url() {
    let text = "https://arxiv.org/abs/2403.03542";
    let matches = extract_arxiv_matches_from_text(text);
    assert_eq!(matches.len(), 1);
    assert_eq!(matches[0].id, "2403.03542");
}

#[test]
fn test_no_match_without_arxiv_context() {
    let text = "Some paper 2403.03542";
    let matches = extract_arxiv_matches_from_text(text);
    assert!(matches.is_empty());
}

#[test]
fn test_normalize_arxiv_id() {
    assert_eq!(normalize_arxiv_id("2403.03542"), "2403.03542");
    assert_eq!(normalize_arxiv_id("2403.03542v2"), "2403.03542");
    assert_eq!(normalize_arxiv_id("CS.DM/9910013"), "cs.dm/9910013");
    assert_eq!(normalize_arxiv_id("cs.DM/ 9910013"), "cs.dm/9910013");
}

#[test]
fn test_arxiv_match_doi_construction() {
    let m = ArxivMatch::new("2403.03542".to_string(), "arXiv:2403.03542".to_string());
    assert_eq!(m.arxiv_doi, "10.48550/arXiv.2403.03542");
}

#[test]
fn arxiv_matches_come_in_first_seen_order() {
    let text = "arXiv:2403.00002 then arXiv:2403.00001 and again arXiv:2403.00002v3";
    let matches = extract_arxiv_matches_from_text(text);
    assert_eq!(matches.len(), 2);
    assert_eq!(matches[0].id, "2403.00002");
    assert_eq!(matches[0].raw, "arXiv:2403.00002");
    assert_eq!(matches[1].id, "2403.00001");
}

#[test]
fn arxiv_modern_form_is_found_before_url_form() {
    let text = "https://arxiv.org/abs/2403.00009 see arXiv:2403.00001";
    let matches = extract_arxiv_matches_from_text(text);
    assert_eq!(matches.len(), 2);
    assert_eq!(matches[0].id, "2403.00001");
    assert_eq!(matches[1].id, "2403.00009");
}

#[test]
fn arxiv_version_is_kept_when_not_digits_only() {
    assert_eq!(normalize_arxiv_id("2403.03542v"), "2403.03542v");
    assert_eq!(normalize_arxiv_id("2403.03542vx"), "2403.03542vx");
    assert_eq!(normalize_arxiv_id("2403.03542v2x"), "2403.03542v2x");
    assert_eq!(normalize_arxiv_id("2403.03542"), "2403.03542");
    assert_eq!(normalize_arxiv_id(""), "");
}

#[test]
fn arxiv_version_is_looked_for_at_the_end() {
    assert_eq!(normalize_arxiv_id("cs.CV/0301001v2"), "cs.cv/0301001");
    assert_eq!(normalize_arxiv_id("solv-int/9901001v2"), "solv-int/9901001");
    assert_eq!(normalize_arxiv_id("hep-ph/9901234V12"), "hep-ph/9901234");
    assert_eq!(normalize_arxiv_id("2403.03542v1v2"), "2403.03542");
    assert_eq!(normalize_arxiv_id("2403.03542 v 3"), "2403.03542");
    assert_eq!(normalize_arxiv_id("v1"), "");
    assert_eq!(normalize_arxiv_id("v"), "v");
    assert_eq!(normalize_arxiv_id("12"), "12");
}

#[test]
fn arxiv_normalization_is_idempotent_on_examples() {
    for id in [
        "2403.03542v2",
        "CS.DM/ 9910013v12",
        "cs.CV/0301001v2",
        "hep-ph/9901234",
        "Q-Bio/0401001 v1",
        "v1",
        "xv1v2",
        "solv-int/9901001V3",
        "é 1v2",
    ] {
        let once = normalize_arxiv_id(id);
        assert_eq!(normalize_arxiv_id(&once), once);
    }
}

#[test]
fn arxiv_normalization_removes_unicode_whitespace() {
    assert_eq!(normalize_arxiv_id("cs.DM/\u{a0}9910013\t"), "cs.dm/9910013");
    assert_eq!(normalize_arxiv_id("2403.\u{2003}03542"), "2403.03542");
}
