use citation_extraction::cli::Source;
use citation_extraction::index::DoiIndex;
use citation_extraction::validation::{has_known_prefix, lookup_doi, prefix_source, LookupResult, PrefixMatch, ValidationContext};

#[test]
fn test_lookup_doi_crossref() {
    let mut crossref = DoiIndex::new();
    crossref.insert("10.1234/found");

    let result = lookup_doi("10.1234/found", Source::Crossref, Some(&crossref), None);
    assert_eq!(result, LookupResult::Found(Source::Crossref));

    let result = lookup_doi("10.1234/notfound", Source::Crossref, Some(&crossref), None);
    assert_eq!(result, LookupResult::NotFound);
}

#[test]
fn test_lookup_doi_all_mode() {
    let mut crossref = DoiIndex::new();
    crossref.insert("10.1234/crossref");

    let mut datacite = DoiIndex::new();
    datacite.insert("10.48550/datacite");

    let result = lookup_doi("10.1234/crossref", Source::All, Some(&crossref), Some(&datacite));
    assert_eq!(result, LookupResult::Found(Source::Crossref));

    let result = lookup_doi("10.48550/datacite", Source::All, Some(&crossref), Some(&datacite));
    assert_eq!(result, LookupResult::Found(Source::Datacite));

    let result = lookup_doi("10.9999/unknown", Source::All, Some(&crossref), Some(&datacite));
    assert_eq!(result, LookupResult::NotFound);
}

#[test]
fn test_has_known_prefix() {
    let mut crossref = DoiIndex::new();
    crossref.insert("10.1234/example");

    let mut datacite = DoiIndex::new();
    datacite.insert("10.48550/arXiv.2403.12345");

    assert!(has_known_prefix("10.1234/other", Some(&crossref), Some(&datacite)));
    assert!(has_known_prefix("10.48550/arXiv.9999.99999", Some(&crossref), Some(&datacite)));
    assert!(!has_known_prefix("10.9999/unknown", Some(&crossref), Some(&datacite)));
}

#[test]
fn test_prefix_source() {
    let mut crossref = DoiIndex::new();
    crossref.insert("10.1234/example");

    let mut datacite = DoiIndex::new();
    datacite.insert("10.48550/arXiv.2403.12345");

    assert_eq!(prefix_source("10.1234/x", Some(&crossref), Some(&datacite)), PrefixMatch::Crossref);
    assert_eq!(prefix_source("10.48550/x", Some(&crossref), Some(&datacite)), PrefixMatch::Datacite);
    assert_eq!(prefix_source("10.9999/x", Some(&crossref), Some(&datacite)), PrefixMatch::Neither);
}

#[test]
fn prefix_source_both_and_without_prefix() {
    let mut crossref = DoiIndex::new();
    crossref.insert("10.1234/a");
    let mut datacite = DoiIndex::new();
    datacite.insert("10.1234/b");
    assert_eq!(prefix_source("10.1234/z", Some(&crossref), Some(&datacite)), PrefixMatch::Both);
    assert_eq!(prefix_source("10.1234", Some(&crossref), Some(&datacite)), PrefixMatch::Neither);
    assert_eq!(prefix_source("10.1234/z", None, None), PrefixMatch::Neither);
    assert!(!has_known_prefix("no-prefix", Some(&crossref), Some(&datacite)));
    assert!(has_known_prefix("10.1234/Q", None, Some(&datacite)));
}

#[test]
fn lookup_single_source_modes_consult_one_index() {
    let mut crossref = DoiIndex::new();
    crossref.insert("10.1234/both");
    let mut datacite = DoiIndex::new();
    datacite.insert("10.1234/both");
    datacite.insert("10.48550/only-datacite");

    assert_eq!(lookup_doi("10.1234/BOTH", Source::All, Some(&crossref), Some(&datacite)), LookupResult::Found(Source::Crossref));
    assert_eq!(lookup_doi("10.1234/both", Source::Datacite, Some(&crossref), Some(&datacite)), LookupResult::Found(Source::Datacite));
    assert_eq!(lookup_doi("10.1234/both", Source::Arxiv, Some(&crossref), Some(&datacite)), LookupResult::Found(Source::Datacite));
    assert_eq!(lookup_doi("10.48550/only-datacite", Source::Crossref, Some(&crossref), Some(&datacite)), LookupResult::NotFound);
    assert_eq!(lookup_doi("10.1234/both", Source::Crossref, None, Some(&datacite)), LookupResult::NotFound);
    assert_eq!(lookup_doi("10.1234/both", Source::All, None, None), LookupResult::NotFound);
}

#[test]
fn validation_context_defaults_and_needs() {
    let ctx = ValidationContext::new();
    assert!(ctx.crossref_index.is_none());
    assert!(ctx.datacite_index.is_none());
    assert_eq!(ctx.concurrency, 50);
    assert_eq!(ctx.timeout_secs, 5);
    for source in [Source::All, Source::Crossref, Source::Datacite, Source::Arxiv] {
        assert!(!ctx.can_validate(source));
    }

    let mut with_crossref = ValidationContext::default();
    with_crossref.crossref_index = Some(DoiIndex::new());
    assert!(with_crossref.can_validate(Source::All));
    assert!(with_crossref.can_validate(Source::Crossref));
    assert!(!with_crossref.can_validate(Source::Datacite));
    assert!(!with_crossref.can_validate(Source::Arxiv));

    let mut with_fallback = ValidationContext::new();
    with_fallback.http_fallback_datacite = true;
    assert!(!with_fallback.can_validate(Source::All));
    assert!(!with_fallback.can_validate(Source::Crossref));
    assert!(with_fallback.can_validate(Source::Datacite));
    assert!(with_fallback.can_validate(Source::Arxiv));
    with_fallback.http_fallback_crossref = true;
    assert!(with_fallback.can_validate(Source::Crossref));
}
