use citation_extraction::cli::Source;
use citation_extraction::extract::reference::{
    asserted_by, check_arxiv_hint, extract_arxiv_from_reference, extract_reference_ids, text_fields,
    Reference,
};
use citation_extraction::extract::Provenance;
use citation_extraction::json::{array_member, string_member};
use citation_extraction::streaming::driver::reference_from_json;

fn parse(text: &str) -> serde_json::Value {
    serde_json::from_str(text).unwrap()
}

fn empty_reference() -> Reference {
    Reference {
        doi: None,
        unstructured: None,
        article_title: None,
        journal_title: None,
        url: None,
        doi_asserted_by: None,
        json: "{}".to_string(),
    }
}

#[test]
fn test_check_arxiv_hint_with_arxiv() {
    assert!(check_arxiv_hint(None, Some("arXiv preprint arXiv:2403.03542"), None, None, None));
}

#[test]
fn test_check_arxiv_hint_with_doi() {
    assert!(check_arxiv_hint(Some("10.48550/arXiv.2403.03542"), None, None, None, None));
}

#[test]
fn test_check_arxiv_hint_with_url() {
    assert!(check_arxiv_hint(None, None, None, None, Some("https://arxiv.org/abs/2403.03542")));
}

#[test]
fn test_check_arxiv_hint_without_arxiv() {
    assert!(!check_arxiv_hint(
        Some("10.1234/test"),
        Some("A normal reference"),
        Some("Some paper"),
        Some("Nature"),
        Some("https://nature.com/paper")
    ));
}

#[test]
fn test_process_reference_with_arxiv() {
    let reference = reference_from_json(&parse(
        r#"{"unstructured": "Smith J. (2024). A great paper. arXiv preprint arXiv:2403.03542.", "key": "ref1"}"#,
    ));

    let (matches, has_arxiv) = extract_arxiv_from_reference(&reference);
    assert!(has_arxiv);
    assert!(matches.iter().any(|m| m.id == "2403.03542"));
}

#[test]
fn test_process_reference_without_arxiv() {
    let reference = reference_from_json(&parse(
        r#"{"unstructured": "Smith J. (2024). A great paper. Nature 123:456.", "key": "ref1"}"#,
    ));

    let (matches, has_arxiv) = extract_arxiv_from_reference(&reference);
    assert!(!has_arxiv);
    assert!(matches.is_empty());
}

#[test]
fn hint_looks_for_the_doi_lead_in_the_doi_field_only() {
    assert!(!check_arxiv_hint(None, Some("10.48550/something"), None, None, None));
    assert!(!check_arxiv_hint(Some("see arxiv"), None, None, None, None));
    assert!(check_arxiv_hint(None, None, Some("An ARXIV note"), None, None));
    assert!(check_arxiv_hint(None, None, None, Some("ArXiv e-prints"), None));
    assert!(!check_arxiv_hint(None, None, None, None, None));
}

#[test]
fn reference_fields_are_read_from_json() {
    let reference = reference_from_json(&parse(
        r#"{"DOI":"10.1234/x","unstructured":"u","article-title":"a","journal-title":"j","URL":"http://e","doi-asserted-by":"crossref","year":2020}"#,
    ));
    assert_eq!(reference.doi.as_deref(), Some("10.1234/x"));
    assert_eq!(reference.unstructured.as_deref(), Some("u"));
    assert_eq!(reference.article_title.as_deref(), Some("a"));
    assert_eq!(reference.journal_title.as_deref(), Some("j"));
    assert_eq!(reference.url.as_deref(), Some("http://e"));
    assert_eq!(reference.doi_asserted_by.as_deref(), Some("crossref"));
    let again = parse(&reference.json);
    assert_eq!(again.get("year").and_then(|v| v.as_u64()), Some(2020));
    assert_eq!(
        text_fields(&reference),
        vec!["10.1234/x".to_string(), "u".to_string(), "a".to_string(), "j".to_string(), "http://e".to_string()]
    );
}

#[test]
fn reference_fields_of_other_types_are_absent() {
    let reference = reference_from_json(&parse(r#"{"DOI": 5, "unstructured": ["x"], "URL": null}"#));
    assert!(reference.doi.is_none());
    assert!(reference.unstructured.is_none());
    assert!(reference.url.is_none());
    assert!(text_fields(&reference).is_empty());
    let not_an_object = reference_from_json(&parse(r#"["DOI"]"#));
    assert!(not_an_object.doi.is_none());
    assert_eq!(not_an_object.json, r#"["DOI"]"#);
}

#[test]
fn asserted_by_knows_publisher_and_crossref() {
    assert_eq!(asserted_by(&Some("publisher".to_string())), Some(Provenance::Publisher));
    assert_eq!(asserted_by(&Some("crossref".to_string())), Some(Provenance::Crossref));
    assert_eq!(asserted_by(&Some("Publisher".to_string())), None);
    assert_eq!(asserted_by(&Some("mined".to_string())), None);
    assert_eq!(asserted_by(&None), None);
}

#[test]
fn asserted_doi_beats_the_same_doi_mined() {
    let mut reference = empty_reference();
    reference.doi = Some("10.2000/B".to_string());
    reference.doi_asserted_by = Some("publisher".to_string());
    reference.unstructured = Some("see 10.2000/b and 10.3000/c.".to_string());
    let ids = extract_reference_ids(&reference, Source::Crossref);
    assert_eq!(ids.len(), 2);
    assert_eq!(ids[0].id, "10.2000/b");
    assert_eq!(ids[0].raw, "10.2000/B");
    assert_eq!(ids[0].provenance, Provenance::Publisher);
    assert_eq!(ids[1].id, "10.3000/c");
    assert_eq!(ids[1].raw, "10.3000/c.");
    assert_eq!(ids[1].provenance, Provenance::Mined);
}

#[test]
fn unasserted_doi_field_is_mined() {
    let mut reference = empty_reference();
    reference.doi = Some("10.2000/b".to_string());
    let ids = extract_reference_ids(&reference, Source::All);
    assert_eq!(ids.len(), 1);
    assert_eq!(ids[0].provenance, Provenance::Mined);
    reference.doi_asserted_by = Some("crossref".to_string());
    let ids = extract_reference_ids(&reference, Source::All);
    assert_eq!(ids.len(), 1);
    assert_eq!(ids[0].provenance, Provenance::Crossref);
}

#[test]
fn arxiv_ids_are_gathered_over_all_text_fields() {
    let mut reference = empty_reference();
    reference.doi = Some("10.48550/arXiv.2403.00001".to_string());
    reference.unstructured = Some("arXiv:2403.00002 and arXiv:2403.00001v2".to_string());
    reference.url = Some("https://arxiv.org/abs/hep-th/9901001".to_string());
    let ids = extract_reference_ids(&reference, Source::Arxiv);
    let found: Vec<&str> = ids.iter().map(|m| m.id.as_str()).collect();
    assert_eq!(found, vec!["2403.00001", "2403.00002", "hep-th/9901001"]);
    assert!(ids.iter().all(|m| m.provenance == Provenance::Mined));
    assert_eq!(ids[0].raw, "arXiv.2403.00001");
}

#[test]
fn reference_without_identifier_gives_nothing() {
    let mut reference = empty_reference();
    assert!(extract_reference_ids(&reference, Source::All).is_empty());
    assert!(extract_reference_ids(&reference, Source::Arxiv).is_empty());
    reference.unstructured = Some("no identifier here".to_string());
    assert!(extract_reference_ids(&reference, Source::Datacite).is_empty());
}

#[test]
fn members_are_read_by_name_and_kind() {
    let value = parse(r#"{"a": "text", "b": ["x", {"a": "inner"}, 3], "c": 7, "d": null, "e": {"a": "deep"}}"#);
    assert_eq!(string_member(&value, "a"), Some("text".to_string()));
    assert_eq!(string_member(&value, "b"), None);
    assert_eq!(string_member(&value, "c"), None);
    assert_eq!(string_member(&value, "d"), None);
    assert_eq!(string_member(&value, "missing"), None);
    assert_eq!(string_member(&value, "A"), None);
    let elements = array_member(&value, "b").unwrap();
    assert_eq!(elements.len(), 3);
    assert_eq!(string_member(&elements[1], "a"), Some("inner".to_string()));
    assert_eq!(string_member(&elements[0], "a"), None);
    assert!(array_member(&value, "a").is_none());
    assert!(array_member(&value, "e").is_none());
    assert!(array_member(&value, "missing").is_none());
    assert!(array_member(&elements[2], "b").is_none());
    let text = parse(r#""a""#);
    assert_eq!(string_member(&text, "a"), None);
}
