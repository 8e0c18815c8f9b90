use citation_extraction::commands::convert::flatten_references;
use citation_extraction::common::types::ConvertStats;
use citation_extraction::commands::extract::{process_json_items, process_record, process_references, sorted_matches};
use citation_extraction::commands::invert::{arxiv_citations_of, build_cited_by, invert_stats_of};
use citation_extraction::commands::validate::validate_stats_of;
use citation_extraction::extract::reference::{IdentifierMatch, Reference};
use citation_extraction::extract::Provenance;
use citation_extraction::index::builder::{build_index_from_lines, is_blank, read_id, take_line, BuildStats, LineOutcome};
use citation_extraction::index::DoiIndex;
use citation_extraction::streaming::partition_invert::{CitedBy, InvertedEntry};
use citation_extraction::validation::runner::{MultiValidateStats, ValidationResults};

fn parse(text: &str) -> serde_json::Value {
    serde_json::from_str(text).unwrap()
}

fn citing(doi: &str, raw: &str) -> CitedBy {
    CitedBy { doi: doi.to_string(), raw_match: raw.to_string(), reference: "{}".to_string(), provenance: Provenance::Mined, extra: String::new() }
}

#[test]
fn test_process_record_with_arxiv_refs() {
    let record = parse(
        r#"{
            "DOI": "10.1234/test.paper",
            "reference": [
                {"unstructured": "arXiv preprint arXiv:2403.03542", "key": "ref1"},
                {"journal-title": "Nature", "volume": "123", "key": "ref2"}
            ]
        }"#,
    );

    let result = process_record(&record);
    assert!(result.is_some());

    let match_result = result.unwrap();
    assert_eq!(match_result.doi, "10.1234/test.paper");
    assert!(match_result.arxiv_matches.iter().any(|m| m.id == "2403.03542"));
    assert_eq!(match_result.references.len(), 1);
}

#[test]
fn test_process_record_filters_empty_matches() {
    let record = parse(
        r#"{
            "DOI": "10.1234/test.paper",
            "reference": [
                {"journal-title": "arXiv Prepr", "key": "ref1"}
            ]
        }"#,
    );

    let result = process_record(&record);
    assert!(result.is_none());
}

#[test]
fn record_without_doi_or_references_gives_nothing() {
    assert!(process_record(&parse(r#"{"reference":[{"unstructured":"arXiv:2403.03542"}]}"#)).is_none());
    assert!(process_record(&parse(r#"{"DOI":"10.1234/a"}"#)).is_none());
    assert!(process_record(&parse(r#"{"DOI":"10.1234/a","reference":{"unstructured":"arXiv:2403.03542"}}"#)).is_none());
    assert!(process_record(&parse(r#"{"DOI":"10.1234/a","reference":[]}"#)).is_none());
}

#[test]
fn record_matches_are_sorted_by_identifier() {
    let record = parse(
        r#"{"DOI":"10.1234/a","reference":[
            {"unstructured":"arXiv:2403.00009 and arXiv:hep-th/9901001"},
            {"unstructured":"no hint"},
            {"URL":"https://arxiv.org/abs/2403.00001", "unstructured": "again arXiv:2403.00009v2"}
        ]}"#,
    );
    let found = process_record(&record).unwrap();
    let ids: Vec<&str> = found.arxiv_matches.iter().map(|m| m.id.as_str()).collect();
    assert_eq!(ids, vec!["2403.00001", "2403.00009", "hep-th/9901001"]);
    assert_eq!(found.arxiv_matches[0].arxiv_doi, "10.48550/arXiv.2403.00001");
    assert_eq!(found.references.len(), 2);
    let items = vec![record, parse(r#"{"DOI":"10.1234/b"}"#)];
    assert_eq!(process_json_items(&items).len(), 1);
}

#[test]
fn references_without_hint_give_nothing() {
    let plain = Reference {
        doi: Some("10.1234/x".to_string()),
        unstructured: Some("Nature 1".to_string()),
        article_title: None,
        journal_title: None,
        url: None,
        doi_asserted_by: None,
        json: "{}".to_string(),
    };
    assert!(process_references("10.1234/a", &vec![plain]).is_none());
    assert!(process_references("10.1234/a", &Vec::new()).is_none());
}

#[test]
fn sorted_matches_orders_identifiers() {
    let ids: Vec<IdentifierMatch> = ["b", "a", "c", "ab", ""]
        .iter()
        .map(|id| IdentifierMatch { id: id.to_string(), raw: format!("raw-{}", id), provenance: Provenance::Mined })
        .collect();
    let sorted = sorted_matches(&ids);
    let got: Vec<&str> = sorted.iter().map(|m| m.id.as_str()).collect();
    assert_eq!(got, vec!["", "a", "ab", "b", "c"]);
    assert_eq!(sorted[3].raw, "raw-b");
    assert_eq!(sorted[3].arxiv_doi, "10.48550/arXiv.b");
}

#[test]
fn citing_works_are_gathered_by_doi() {
    let cited_by = vec![citing("10.1/a", "r1"), citing("10.1/b", "r2"), citing("10.1/a", "r3")];
    let works = build_cited_by(&cited_by);
    assert_eq!(works.len(), 2);
    assert_eq!(works[0].doi, "10.1/a");
    let raws: Vec<&str> = works[0].matches.iter().map(|m| m.raw_match.as_str()).collect();
    assert_eq!(raws, vec!["r1", "r3"]);
    assert_eq!(works[1].doi, "10.1/b");
    assert_eq!(works[1].matches.len(), 1);
    assert_eq!(works[1].matches[0].reference, "{}");
    assert!(build_cited_by(&Vec::new()).is_empty());
}

#[test]
fn arxiv_citations_carry_the_built_doi() {
    let entry = InvertedEntry {
        cited_id: "2403.12345".to_string(),
        citation_count: 2,
        reference_count: 2,
        cited_by: vec![citing("10.1/a", "r1"), citing("10.1/b", "r2")],
        arxiv_doi: None,
    };
    let out = arxiv_citations_of(&entry);
    assert_eq!(out.arxiv_doi, "10.48550/arXiv.2403.12345");
    assert_eq!(out.arxiv_id, "2403.12345");
    assert_eq!(out.citation_count, 2);
    assert_eq!(out.reference_count, 2);
    assert_eq!(out.cited_by.len(), 2);
}

#[test]
fn invert_stats_sum_the_citation_counts() {
    let entries: Vec<InvertedEntry> = [3usize, 0, 4]
        .iter()
        .map(|c| InvertedEntry {
            cited_id: format!("id{}", c),
            citation_count: *c,
            reference_count: *c,
            cited_by: Vec::new(),
            arxiv_doi: None,
        })
        .collect();
    let stats = invert_stats_of(5, &entries);
    assert_eq!(stats.partitions_processed, 5);
    assert_eq!(stats.unique_arxiv_works, 3);
    assert_eq!(stats.total_citations, 7);
    let mut huge = entries;
    huge[0].citation_count = usize::MAX;
    assert_eq!(invert_stats_of(1, &huge).total_citations, usize::MAX);
}

#[test]
fn validate_stats_follow_the_datacite_counters() {
    let results = ValidationResults {
        valid: Vec::new(),
        failed: Vec::new(),
        stats: MultiValidateStats {
            total_records: 10,
            crossref_matched: 0,
            datacite_matched: 4,
            crossref_http_resolved: 0,
            datacite_http_resolved: 3,
            crossref_failed: 0,
            datacite_failed: 3,
        },
    };
    let stats = validate_stats_of(&results);
    assert_eq!(stats.total_records, 10);
    assert_eq!(stats.matched_in_datacite, 4);
    assert_eq!(stats.resolution_resolved, 3);
    assert_eq!(stats.resolution_failed, 3);
    assert_eq!(stats.total_valid, 7);
    assert_eq!(stats.total_failed, 3);
}

#[test]
fn index_is_built_from_the_lines_of_a_dump() {
    let lines: Vec<String> = [
        r#"{"id": "10.1234/example1"}"#,
        r#"{"id": "10.1234/example2"}"#,
        "",
        "   \t",
        r#"{"id": "10.5678/other"}"#,
        r#"{"id": 7}"#,
        r#"{"doi": "10.9999/elsewhere"}"#,
        "{ broken",
        r#"{"id": "no-prefix"}"#,
    ]
    .iter()
    .map(|s| s.to_string())
    .collect();

    let (index, stats) = build_index_from_lines(&lines, "id");

    assert_eq!(index.len(), 3);
    assert!(index.contains("10.1234/example1"));
    assert!(index.contains("10.5678/other"));
    assert_eq!(index.prefix_count(), 2);
    assert_eq!(stats, BuildStats { lines_processed: 7, lines_failed: 1, ids_missing: 2 });
}

#[test]
fn lines_are_classified() {
    assert!(is_blank(""));
    assert!(is_blank(" \t\r\n\u{a0}\u{3000}"));
    assert!(!is_blank(" x "));
    assert!(!is_blank("\u{200b}"));
    assert_eq!(read_id("  ", "id"), LineOutcome::Blank);
    assert_eq!(read_id("nope", "id"), LineOutcome::Malformed);
    assert_eq!(read_id(r#"{"id": null}"#, "id"), LineOutcome::NoId);
    assert_eq!(read_id(r#"[{"id": "x"}]"#, "id"), LineOutcome::NoId);
    assert_eq!(read_id(r#"{"id": "10.1/X"}"#, "id"), LineOutcome::Id("10.1/X".to_string()));
    assert_eq!(read_id(r#"{"id": "10.1/X"}"#, "doi"), LineOutcome::NoId);
}

#[test]
fn outcomes_are_counted() {
    let mut index = DoiIndex::new();
    let mut stats = BuildStats { lines_processed: 0, lines_failed: 0, ids_missing: 0 };
    take_line(&mut index, &mut stats, &LineOutcome::Blank);
    assert_eq!(stats, BuildStats { lines_processed: 0, lines_failed: 0, ids_missing: 0 });
    take_line(&mut index, &mut stats, &LineOutcome::Malformed);
    take_line(&mut index, &mut stats, &LineOutcome::NoId);
    take_line(&mut index, &mut stats, &LineOutcome::Id("10.1234/A".to_string()));
    assert_eq!(stats, BuildStats { lines_processed: 3, lines_failed: 1, ids_missing: 1 });
    assert!(index.contains("10.1234/a"));
    stats.lines_processed = usize::MAX;
    take_line(&mut index, &mut stats, &LineOutcome::NoId);
    assert_eq!(stats.lines_processed, usize::MAX);
    assert_eq!(stats.ids_missing, 2);
}

#[test]
fn references_are_flattened_with_their_hint() {
    let with_hint = Reference {
        doi: None,
        unstructured: Some("arXiv preprint arXiv:2403.03542".to_string()),
        article_title: None,
        journal_title: None,
        url: None,
        doi_asserted_by: None,
        json: "{\"a\":1}".to_string(),
    };
    let without = Reference {
        doi: Some("10.1234/test".to_string()),
        unstructured: Some("A normal reference".to_string()),
        article_title: Some("Some paper".to_string()),
        journal_title: Some("Nature".to_string()),
        url: Some("https://nature.com/paper".to_string()),
        doi_asserted_by: Some("publisher".to_string()),
        json: "{\"b\":2}".to_string(),
    };
    let mut stats = ConvertStats::default();
    stats.total_references = 10;
    let rows = flatten_references("10.1234/Citing", &vec![with_hint, without], &mut stats);
    assert_eq!(rows.len(), 2);
    assert_eq!(rows[0].citing_doi, "10.1234/Citing");
    assert_eq!(rows[0].ref_index, 0);
    assert!(rows[0].has_arxiv_hint);
    assert_eq!(rows[0].reference.json, "{\"a\":1}");
    assert_eq!(rows[1].ref_index, 1);
    assert!(!rows[1].has_arxiv_hint);
    assert_eq!(rows[1].reference.doi.as_deref(), Some("10.1234/test"));
    assert_eq!(rows[1].reference.doi_asserted_by.as_deref(), Some("publisher"));
    assert_eq!(stats.total_references, 12);
    assert_eq!(stats.references_with_hint, 1);
    assert_eq!(stats.total_records, 0);
}

#[test]
fn matches_follow_the_order_of_the_records() {
    let items = vec![
        parse(r#"{"DOI":"10.1234/none","reference":[{"unstructured":"Nature 1"}]}"#),
        parse(r#"{"DOI":"10.1234/first","reference":[{"unstructured":"arXiv:2403.00002"}]}"#),
        parse(r#"{"reference":[{"unstructured":"arXiv:2403.00003"}]}"#),
        parse(r#"{"DOI":"10.1234/second","reference":[{"URL":"https://arxiv.org/abs/2403.00001"}]}"#),
    ];
    let found = process_json_items(&items);
    assert_eq!(found.len(), 2);
    assert_eq!(found[0].doi, "10.1234/first");
    assert_eq!(found[0].arxiv_matches[0].id, "2403.00002");
    assert_eq!(found[0].references, vec![r#"{"unstructured":"arXiv:2403.00002"}"#.to_string()]);
    assert_eq!(found[1].doi, "10.1234/second");
    assert_eq!(found[1].arxiv_matches[0].id, "2403.00001");
    assert!(process_json_items(&Vec::new()).is_empty());
}

#[test]
fn index_built_from_lines_is_the_index_of_their_identifiers() {
    let lines: Vec<String> =
        [r#"{"id":"10.1234/A"}"#, " ", r#"{"id":"10.1234/a"}"#, r#"{"id":"10.5678/b","x":1}"#, "[]"]
            .iter()
            .map(|s| s.to_string())
            .collect();
    let (index, stats) = build_index_from_lines(&lines, "id");
    let mut by_hand = DoiIndex::new();
    by_hand.insert("10.1234/A");
    by_hand.insert("10.1234/a");
    by_hand.insert("10.5678/b");
    assert_eq!(index.dois().clone(), by_hand.dois().clone());
    assert_eq!(index.prefixes().clone(), by_hand.prefixes().clone());
    assert_eq!(stats, BuildStats { lines_processed: 4, lines_failed: 0, ids_missing: 1 });
    let (empty, none) = build_index_from_lines(&Vec::new(), "id");
    assert!(empty.is_empty());
    assert_eq!(none, BuildStats { lines_processed: 0, lines_failed: 0, ids_missing: 0 });
}

#[test]
fn test_build_cited_by_json_empty() {
    let empty = serde_json::Value::Array(Vec::new());
    assert!(empty.is_array());
    assert!(build_cited_by(&Vec::new()).is_empty());
}

#[test]
fn test_build_index_from_jsonl_gz() {
    let records = [
        r#"{"id": "10.1234/example1"}"#,
        r#"{"id": "10.1234/example2"}"#,
        r#"{"id": "10.5678/other"}"#,
    ];
    let mut encoder =
        flate2::write::GzEncoder::new(Vec::new(), flate2::Compression::default());
    for record in records {
        std::io::Write::write_all(&mut encoder, record.as_bytes()).unwrap();
        std::io::Write::write_all(&mut encoder, b"\n").unwrap();
    }
    let packed = encoder.finish().unwrap();
    let reader = std::io::BufReader::new(flate2::read::GzDecoder::new(&packed[..]));
    let lines: Vec<String> = std::io::BufRead::lines(reader).map(|l| l.unwrap()).collect();

    let (index, stats) = build_index_from_lines(&lines, "id");

    assert_eq!(index.len(), 3);
    assert!(index.contains("10.1234/example1"));
    assert!(index.contains("10.5678/other"));
    assert_eq!(index.prefix_count(), 2);
    assert_eq!(stats, BuildStats { lines_processed: 3, lines_failed: 0, ids_missing: 0 });
}
