use citation_extraction::index::DoiIndex;

#[test]
fn test_doi_index_insert_and_contains() {
    let mut index = DoiIndex::new();
    index.insert("10.1234/example");

    assert!(index.contains("10.1234/example"));
    assert!(index.contains("10.1234/EXAMPLE"));
    assert!(!index.contains("10.5678/other"));
}

#[test]
fn test_doi_index_prefix_tracking() {
    let mut index = DoiIndex::new();
    index.insert("10.1234/example1");
    index.insert("10.1234/example2");
    index.insert("10.5678/other");

    assert!(index.has_prefix("10.1234"));
    assert!(index.has_prefix("10.5678"));
    assert!(!index.has_prefix("10.9999"));
    assert_eq!(index.prefix_count(), 2);
}

#[test]
fn test_doi_index_merge() {
    let mut index1 = DoiIndex::new();
    index1.insert("10.1234/a");

    let mut index2 = DoiIndex::new();
    index2.insert("10.5678/b");

    index1.merge(index2);

    assert!(index1.contains("10.1234/a"));
    assert!(index1.contains("10.5678/b"));
    assert_eq!(index1.len(), 2);
}

#[test]
fn doi_index_starts_empty() {
    let index = DoiIndex::new();
    assert!(index.is_empty());
    assert_eq!(index.len(), 0);
    assert_eq!(index.prefix_count(), 0);
    let sized = DoiIndex::with_capacity(100, 10);
    assert!(sized.is_empty());
    let by_default = DoiIndex::default();
    assert!(by_default.is_empty());
}

#[test]
fn doi_index_stores_lowercase() {
    let mut index = DoiIndex::new();
    index.insert("10.1234/ABC");
    index.insert("10.1234/abc");
    assert_eq!(index.len(), 1);
    assert_eq!(index.dois().clone(), vec!["10.1234/abc".to_string()]);
    assert_eq!(index.prefixes().clone(), vec!["10.1234".to_string()]);
    assert!(index.has_prefix("10.1234"));
}

#[test]
fn doi_index_discards_a_doi_without_prefix() {
    let mut index = DoiIndex::new();
    index.insert("10.1234");
    index.insert("no-slash");
    index.insert("11.1234/abc");
    assert!(index.is_empty());
    assert!(!index.contains("10.1234"));
    assert_eq!(index.prefix_count(), 0);
}

#[test]
fn doi_index_contains_implies_prefix() {
    let mut index = DoiIndex::new();
    for doi in ["10.1/a", "10.22/B", "10.333/c/d", "x", "10.4444/e"] {
        index.insert(doi);
    }
    for doi in index.dois().clone() {
        let prefix = citation_extraction::extract::doi_prefix(&doi).unwrap();
        assert!(index.has_prefix(&prefix));
    }
    assert_eq!(index.len(), 4);
    assert_eq!(index.prefix_count(), 4);
}

#[test]
fn doi_index_merge_keeps_shared_members_once() {
    let mut a = DoiIndex::new();
    a.insert("10.1234/a");
    a.insert("10.1234/b");
    let mut b = DoiIndex::new();
    b.insert("10.1234/B");
    b.insert("10.9999/c");
    a.merge(b);
    assert_eq!(a.len(), 3);
    assert_eq!(a.prefix_count(), 2);
    assert!(a.has_prefix("10.9999"));
}

#[test]
fn doi_index_from_snapshot_rebuilds_prefixes() {
    let dois = vec!["10.1234/example1".to_string(), "10.1234/example2".to_string(), "10.5678/other".to_string()];
    let loaded = DoiIndex::from_snapshot(&dois, None);
    assert_eq!(loaded.len(), 3);
    assert!(loaded.contains("10.1234/example1"));
    assert!(loaded.contains("10.5678/other"));
    assert_eq!(loaded.prefix_count(), 2);
    assert!(loaded.has_prefix("10.1234"));
}

#[test]
fn doi_index_from_snapshot_takes_the_sidecar() {
    let dois = vec!["10.1234/a".to_string()];
    let prefixes = vec!["10.1234".to_string(), "10.7777".to_string()];
    let loaded = DoiIndex::from_snapshot(&dois, Some(&prefixes));
    assert_eq!(loaded.len(), 1);
    assert_eq!(loaded.prefix_count(), 2);
    assert!(loaded.has_prefix("10.7777"));
}

#[test]
fn doi_index_insert_all_is_insert_in_turn() {
    let mut a = DoiIndex::new();
    a.insert_all(&vec!["10.1/x".to_string(), "bad".to_string(), "10.2/Y".to_string()]);
    assert_eq!(a.dois().clone(), vec!["10.1/x".to_string(), "10.2/y".to_string()]);
}

#[test]
fn test_save_and_load_index() {
    let mut index = DoiIndex::new();
    index.insert("10.1234/example1");
    index.insert("10.1234/example2");
    index.insert("10.5678/other");

    let dois = index.dois().clone();
    let prefixes = index.prefixes().clone();
    let loaded = DoiIndex::from_snapshot(&dois, Some(&prefixes));

    assert_eq!(loaded.len(), 3);
    assert!(loaded.contains("10.1234/example1"));
    assert!(loaded.contains("10.5678/other"));
    assert_eq!(loaded.prefix_count(), 2);
    assert!(loaded.has_prefix("10.1234"));
}

#[test]
fn snapshot_gives_the_index_back() {
    let mut index = DoiIndex::new();
    index.insert("10.1234/Example1");
    index.insert("10.ABCD/x");
    index.insert("no-prefix");
    let mut other = DoiIndex::new();
    other.insert("10.9999/z");
    index.merge(other);

    let with_sidecar = DoiIndex::from_snapshot(index.dois(), Some(index.prefixes()));
    assert_eq!(with_sidecar.dois(), index.dois());
    assert_eq!(with_sidecar.prefixes(), index.prefixes());

    let without_sidecar = DoiIndex::from_snapshot(index.dois(), None);
    assert_eq!(without_sidecar.dois(), index.dois());
    let mut rebuilt = without_sidecar.prefixes().clone();
    rebuilt.sort();
    assert_eq!(rebuilt, vec!["10.1234".to_string(), "10.9999".to_string(), "10.abcd".to_string()]);
}

#[test]
fn snapshot_is_taken_as_it_is_written() {
    let dois = vec!["10.1234/Kept".to_string(), "dropped".to_string(), "10.1234/Kept".to_string()];
    let prefixes = vec!["10.7777".to_string(), "Odd".to_string()];
    let loaded = DoiIndex::from_snapshot(&dois, Some(&prefixes));
    assert_eq!(loaded.dois(), &vec!["10.1234/Kept".to_string()]);
    assert_eq!(loaded.len(), 1);
    assert!(loaded.has_prefix("10.1234"));
    assert!(loaded.has_prefix("10.7777"));
    assert_eq!(loaded.prefix_count(), 3);
}
