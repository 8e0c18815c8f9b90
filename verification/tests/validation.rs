use citation_extraction::cli::Source;
use citation_extraction::extract::Provenance;
use citation_extraction::index::DoiIndex;
use citation_extraction::streaming::partition_invert::{CitedBy, InvertedEntry, OutputMode};
use citation_extraction::validation::http::{check_resolves, doi_url, status_resolves};
use citation_extraction::validation::runner::{
    arxiv_id_of, conclude_with_http, conclude_without_http, filter_cited_by_by_provenance, lookup_records,
    needs_http_fallback, partition_by_source, record_of, split_record, split_records, CitationRecord,
    MultiValidateStats,
};

fn citing(doi: &str, provenance: Provenance) -> CitedBy {
    CitedBy { doi: doi.to_string(), raw_match: "raw".to_string(), reference: "{}".to_string(), provenance, extra: String::new() }
}

fn create_test_record(doi: &str) -> CitationRecord {
    CitationRecord {
        doi: doi.to_string(),
        arxiv_id: None,
        reference_count: 0,
        citation_count: 1,
        cited_by: vec![citing("10.1234/citing", Provenance::Mined)],
    }
}

#[test]
fn test_validate_citations_with_crossref_index() {
    let mut crossref_index = DoiIndex::new();
    crossref_index.insert("10.1234/found");

    let records = vec![create_test_record("10.1234/found"), create_test_record("10.1234/notfound")];

    let local = lookup_records(records, Source::Crossref, Some(&crossref_index), None);
    assert!(!needs_http_fallback(false, &local.unmatched));
    let results = conclude_without_http(local, Source::Crossref);

    assert_eq!(results.stats.total_records, 2);
    assert_eq!(results.stats.crossref_matched, 1);
    assert_eq!(results.valid.len(), 1);
    assert_eq!(results.failed.len(), 1);
    assert_eq!(results.valid[0].0.doi, "10.1234/found");
    assert_eq!(results.failed[0].doi, "10.1234/notfound");
    assert_eq!(results.stats.crossref_failed, 1);
    assert_eq!(results.stats.datacite_failed, 0);
}

#[test]
fn test_validate_citations_with_datacite_index() {
    let mut datacite_index = DoiIndex::new();
    datacite_index.insert("10.48550/arxiv.2301.00001");

    let records =
        vec![create_test_record("10.48550/arXiv.2301.00001"), create_test_record("10.48550/arxiv.9999.99999")];

    let local = lookup_records(records, Source::Datacite, None, Some(&datacite_index));
    let results = conclude_without_http(local, Source::Datacite);

    assert_eq!(results.stats.total_records, 2);
    assert_eq!(results.stats.datacite_matched, 1);
    assert_eq!(results.valid.len(), 1);
    assert_eq!(results.failed.len(), 1);
    assert_eq!(results.stats.datacite_failed, 1);
}

#[test]
fn test_validate_citations_all_mode() {
    let mut crossref_index = DoiIndex::new();
    crossref_index.insert("10.1234/crossref");

    let mut datacite_index = DoiIndex::new();
    datacite_index.insert("10.48550/arxiv.2301.00001");

    let records = vec![
        create_test_record("10.1234/crossref"),
        create_test_record("10.48550/arXiv.2301.00001"),
        create_test_record("10.9999/unknown"),
    ];

    let local = lookup_records(records, Source::All, Some(&crossref_index), Some(&datacite_index));
    let results = conclude_without_http(local, Source::All);

    assert_eq!(results.stats.total_records, 3);
    assert_eq!(results.stats.crossref_matched, 1);
    assert_eq!(results.stats.datacite_matched, 1);
    assert_eq!(results.valid.len(), 2);
    assert_eq!(results.failed.len(), 1);
    assert_eq!(results.valid[0].1, Source::Crossref);
    assert_eq!(results.valid[1].1, Source::Datacite);
}

#[test]
fn test_validate_citations_empty_file() {
    let local = lookup_records(Vec::new(), Source::All, None, None);
    let results = conclude_without_http(local, Source::All);

    assert_eq!(results.stats.total_records, 0);
    assert_eq!(results.valid.len(), 0);
    assert_eq!(results.failed.len(), 0);
    assert_eq!(results.stats, MultiValidateStats::default());
}

#[test]
fn test_write_split_by_provenance() {
    let record_mixed = CitationRecord {
        doi: "10.1234/mixed".to_string(),
        arxiv_id: None,
        reference_count: 2,
        citation_count: 2,
        cited_by: vec![citing("10.5555/a", Provenance::Publisher), citing("10.5555/b", Provenance::Mined)],
    };
    let records = vec![record_mixed];

    let asserted = split_records(&records, true);
    assert_eq!(asserted.len(), 1);
    assert!(asserted[0].cited_by.iter().any(|c| c.provenance.as_str() == "publisher"));
    assert!(!asserted[0].cited_by.iter().any(|c| c.provenance.as_str() == "mined"));

    let mined = split_records(&records, false);
    assert_eq!(mined.len(), 1);
    assert!(mined[0].cited_by.iter().all(|c| c.provenance.as_str() == "mined"));
}

#[test]
fn split_recounts_the_citing_works() {
    let record = CitationRecord {
        doi: "10.1234/cited".to_string(),
        arxiv_id: None,
        reference_count: 3,
        citation_count: 3,
        cited_by: vec![
            citing("10.5555/a", Provenance::Publisher),
            citing("10.5555/b", Provenance::Publisher),
            citing("10.5555/c", Provenance::Mined),
        ],
    };
    let asserted = split_record(&record, true).unwrap();
    let mined = split_record(&record, false).unwrap();
    assert_eq!(asserted.citation_count, 2);
    assert_eq!(mined.citation_count, 1);
    assert_eq!(asserted.doi, "10.1234/cited");
    assert_eq!(mined.doi, "10.1234/cited");
    assert_eq!(asserted.reference_count, 3);
    assert_eq!(mined.cited_by[0].doi, "10.5555/c");
}

#[test]
fn split_parts_are_disjoint_and_cover_the_record() {
    let provenances = [
        Provenance::Mined,
        Provenance::Crossref,
        Provenance::Publisher,
        Provenance::Mined,
        Provenance::Crossref,
    ];
    let cited_by: Vec<CitedBy> =
        provenances.iter().enumerate().map(|(i, p)| citing(&format!("10.5555/{}", i), *p)).collect();
    let asserted = filter_cited_by_by_provenance(&cited_by, true);
    let mined = filter_cited_by_by_provenance(&cited_by, false);
    assert!(asserted.iter().all(|c| c.provenance.is_asserted()));
    assert!(mined.iter().all(|c| !c.provenance.is_asserted()));
    let mut together: Vec<String> = asserted.iter().chain(mined.iter()).map(|c| c.doi.clone()).collect();
    together.sort();
    let mut all: Vec<String> = cited_by.iter().map(|c| c.doi.clone()).collect();
    all.sort();
    assert_eq!(together, all);
    let a: Vec<&str> = asserted.iter().map(|c| c.doi.as_str()).collect();
    assert_eq!(a, vec!["10.5555/1", "10.5555/2", "10.5555/4"]);
}

#[test]
fn record_without_part_is_left_out_of_the_split_file() {
    let only_mined = create_test_record("10.1234/m");
    assert!(split_record(&only_mined, true).is_none());
    assert!(split_record(&only_mined, false).is_some());
    let mut none = create_test_record("10.1234/n");
    none.cited_by.clear();
    assert!(split_record(&none, true).is_none());
    assert!(split_record(&none, false).is_none());
    let records = vec![only_mined, none];
    assert!(split_records(&records, true).is_empty());
    assert_eq!(split_records(&records, false).len(), 1);
}

#[test]
fn http_outcomes_are_merged_in_completion_order() {
    let mut crossref = DoiIndex::new();
    crossref.insert("10.1234/found");
    let records = vec![
        create_test_record("10.1234/u1"),
        create_test_record("10.1234/found"),
        create_test_record("10.1234/u2"),
        create_test_record("10.1234/u3"),
    ];
    let local = lookup_records(records, Source::Crossref, Some(&crossref), None);
    assert!(needs_http_fallback(true, &local.unmatched));
    assert!(!needs_http_fallback(false, &local.unmatched));
    let unmatched: Vec<&str> = local.unmatched.iter().map(|r| r.doi.as_str()).collect();
    assert_eq!(unmatched, vec!["10.1234/u1", "10.1234/u2", "10.1234/u3"]);
    let mut unmatched = local.unmatched;
    let u3 = unmatched.pop().unwrap();
    let u2 = unmatched.pop().unwrap();
    let u1 = unmatched.pop().unwrap();
    let outcomes = vec![(u3, true), (u1, false), (u2, true)];
    let results = conclude_with_http(local.matched, local.stats, outcomes, Source::Crossref);
    let valid: Vec<(&str, Source)> = results.valid.iter().map(|(r, s)| (r.doi.as_str(), *s)).collect();
    assert_eq!(
        valid,
        vec![
            ("10.1234/found", Source::Crossref),
            ("10.1234/u3", Source::Crossref),
            ("10.1234/u2", Source::Crossref)
        ]
    );
    assert_eq!(results.failed.len(), 1);
    assert_eq!(results.failed[0].doi, "10.1234/u1");
    assert_eq!(
        results.stats,
        MultiValidateStats {
            total_records: 4,
            crossref_matched: 1,
            datacite_matched: 0,
            crossref_http_resolved: 2,
            datacite_http_resolved: 0,
            crossref_failed: 1,
            datacite_failed: 0,
        }
    );
}

#[test]
fn http_outcomes_count_for_datacite_unless_crossref_was_asked() {
    for source in [Source::All, Source::Datacite, Source::Arxiv] {
        let local = lookup_records(
            vec![create_test_record("10.1/a"), create_test_record("10.1/b")],
            source,
            None,
            None,
        );
        let mut unmatched = local.unmatched;
        let b = unmatched.pop().unwrap();
        let a = unmatched.pop().unwrap();
        let results = conclude_with_http(local.matched, local.stats, vec![(a, true), (b, false)], source);
        assert_eq!(results.stats.datacite_http_resolved, 1);
        assert_eq!(results.stats.datacite_failed, 1);
        assert_eq!(results.stats.crossref_http_resolved, 0);
        assert_eq!(results.stats.crossref_failed, 0);
        assert_eq!(results.valid[0].1, source);
    }
}

#[test]
fn valid_records_are_split_by_source() {
    let valid = vec![
        (create_test_record("10.1/a"), Source::Datacite),
        (create_test_record("10.1/b"), Source::Crossref),
        (create_test_record("10.1/c"), Source::All),
        (create_test_record("10.1/d"), Source::Crossref),
    ];
    let (crossref, others) = partition_by_source(&valid);
    assert_eq!(crossref, vec![1, 3]);
    assert_eq!(others, vec![0, 2]);
}

#[test]
fn status_resolves_for_success_and_redirection() {
    for (status, expected) in
        [(199u16, false), (200, true), (204, true), (299, true), (300, true), (302, true), (399, true), (400, false), (404, false), (500, false), (0, false), (u16::MAX, false)]
    {
        assert_eq!(status_resolves(status), expected);
        assert_eq!(check_resolves(Some(status)), expected);
    }
    assert!(!check_resolves(None));
    assert_eq!(doi_url("10.1234/abc"), "https://doi.org/10.1234/abc");
}

#[test]
fn record_of_an_entry_follows_the_mode() {
    let entry = InvertedEntry {
        cited_id: "2403.12345".to_string(),
        citation_count: 4,
        reference_count: 5,
        cited_by: vec![citing("10.1/a", Provenance::Mined)],
        arxiv_doi: Some("10.48550/arXiv.2403.12345".to_string()),
    };
    let record = record_of(entry.clone(), OutputMode::Arxiv);
    assert_eq!(record.doi, "10.48550/arXiv.2403.12345");
    assert_eq!(record.arxiv_id.as_deref(), Some("2403.12345"));
    assert_eq!(record.citation_count, 4);
    assert_eq!(record.reference_count, 5);
    assert_eq!(record.cited_by.len(), 1);
    let generic = record_of(entry, OutputMode::Generic);
    assert_eq!(generic.doi, "2403.12345");
    assert_eq!(generic.arxiv_id, None);
}

#[test]
fn arxiv_id_is_taken_from_the_record_or_its_doi() {
    let mut record = create_test_record("10.48550/arXiv.2301.00001");
    assert_eq!(arxiv_id_of(&record), "2301.00001");
    record.doi = "10.48550/arxiv.2301.00002".to_string();
    assert_eq!(arxiv_id_of(&record), "2301.00002");
    record.doi = "10.48550/ARXIV.2301.00003".to_string();
    assert_eq!(arxiv_id_of(&record), "10.48550/ARXIV.2301.00003");
    record.doi = "10.1234/x".to_string();
    assert_eq!(arxiv_id_of(&record), "10.1234/x");
    record.arxiv_id = Some("given".to_string());
    assert_eq!(arxiv_id_of(&record), "given");
}

#[test]
fn what_else_a_citing_entry_holds_is_carried_along() {
    let mut first = citing("10.1/a", Provenance::Publisher);
    first.extra = r#"{"note":"kept"}"#.to_string();
    let second = citing("10.1/b", Provenance::Mined);
    let asserted = filter_cited_by_by_provenance(&vec![first.duplicate(), second], true);
    assert_eq!(asserted.len(), 1);
    assert_eq!(asserted[0].doi, "10.1/a");
    assert_eq!(asserted[0].extra, r#"{"note":"kept"}"#);
}
