use citation_extraction::extract::Provenance;
use citation_extraction::streaming::assemble::{assemble, entry_precedes, pending_partitions, sort_entries};
use citation_extraction::streaming::partition_invert::{invert_partition, InvertedEntry, OutputMode};
use citation_extraction::streaming::{Checkpoint, ExplodedRow};

fn rows_of(rows: Vec<(&str, u32, &str, &str, &str)>) -> Vec<ExplodedRow> {
    rows.into_iter()
        .map(|r| ExplodedRow {
            citing_doi: r.0.to_string(),
            ref_index: r.1,
            ref_json: r.2.to_string(),
            raw_match: r.3.to_string(),
            cited_id: r.4.to_string(),
            provenance: Provenance::Mined,
        })
        .collect()
}

fn edge(citing: &str, cited: &str, raw: &str, provenance: Provenance) -> ExplodedRow {
    ExplodedRow {
        citing_doi: citing.to_string(),
        ref_index: 0,
        ref_json: format!("{{\"raw\":\"{}\"}}", raw),
        raw_match: raw.to_string(),
        cited_id: cited.to_string(),
        provenance,
    }
}

fn entry(id: &str, count: usize) -> InvertedEntry {
    InvertedEntry {
        cited_id: id.to_string(),
        citation_count: count,
        reference_count: count,
        cited_by: Vec::new(),
        arxiv_doi: None,
    }
}

fn keys(entries: &Vec<InvertedEntry>) -> Vec<(usize, String)> {
    entries.iter().map(|e| (e.citation_count, e.cited_id.clone())).collect()
}

#[test]
fn test_invert_single_partition_arxiv_mode() {
    let rows = rows_of(vec![
        ("10.1234/a", 0, "{}", "arXiv:2403.12345", "2403.12345"),
        ("10.1234/b", 1, "{}", "arXiv:2403.12345", "2403.12345"),
        ("10.1234/a", 2, "{}", "arXiv:2403.67890", "2403.67890"),
    ]);

    let entries = invert_partition(&rows, OutputMode::Arxiv);

    assert_eq!(entries.len(), 2);
    let cited_ids: Vec<String> = entries.iter().map(|e| e.cited_id.clone()).collect();
    assert!(cited_ids.contains(&"2403.12345".to_string()));
    assert!(cited_ids.contains(&"2403.67890".to_string()));
    assert!(entries.iter().all(|e| e.arxiv_doi.is_some()));
    assert_eq!(entries[0].arxiv_doi.as_deref(), Some("10.48550/arXiv.2403.12345"));
}

#[test]
fn test_invert_single_partition_generic_mode() {
    let rows = rows_of(vec![
        ("10.5555/a", 0, "{}", "10.1234/test1", "10.1234/test1"),
        ("10.5555/b", 1, "{}", "10.1234/test1", "10.1234/test1"),
        ("10.5555/a", 2, "{}", "10.1234/test2", "10.1234/test2"),
    ]);

    let entries = invert_partition(&rows, OutputMode::Generic);

    assert_eq!(entries.len(), 2);
    let cited_ids: Vec<String> = entries.iter().map(|e| e.cited_id.clone()).collect();
    assert!(cited_ids.contains(&"10.1234/test1".to_string()));
    assert!(cited_ids.contains(&"10.1234/test2".to_string()));
    assert!(entries.iter().all(|e| e.arxiv_doi.is_none()));
}

#[test]
fn one_edge_gives_one_entry() {
    let rows = vec![edge("10.1/a", "10.2/b", "10.2/b", Provenance::Mined)];
    let entries = invert_partition(&rows, OutputMode::Generic);
    assert_eq!(entries.len(), 1);
    assert_eq!(entries[0].cited_id, "10.2/b");
    assert_eq!(entries[0].citation_count, 1);
    assert_eq!(entries[0].reference_count, 1);
    assert_eq!(entries[0].cited_by.len(), 1);
    assert_eq!(entries[0].cited_by[0].doi, "10.1/a");
    assert_eq!(entries[0].cited_by[0].provenance, Provenance::Mined);
    assert_eq!(entries[0].cited_by[0].raw_match, "10.2/b");
    assert_eq!(entries[0].cited_by[0].reference, "{\"raw\":\"10.2/b\"}");
}

#[test]
fn pair_is_kept_once_with_the_strongest_provenance() {
    let rows = vec![
        edge("10.1/a", "10.9/x", "first-mined", Provenance::Mined),
        edge("10.1/b", "10.9/x", "b-crossref", Provenance::Crossref),
        edge("10.1/a", "10.9/x", "second-mined", Provenance::Mined),
        edge("10.1/a", "10.9/x", "publisher", Provenance::Publisher),
        edge("10.1/a", "10.9/x", "late-publisher", Provenance::Publisher),
        edge("10.1/b", "10.9/x", "b-mined", Provenance::Mined),
        edge("10.1/a", "10.9/y", "other", Provenance::Mined),
    ];
    let entries = invert_partition(&rows, OutputMode::Generic);
    assert_eq!(entries.len(), 2);
    let x = &entries[0];
    assert_eq!(x.cited_id, "10.9/x");
    let got: Vec<(&str, &str, Provenance)> =
        x.cited_by.iter().map(|c| (c.doi.as_str(), c.raw_match.as_str(), c.provenance)).collect();
    assert_eq!(
        got,
        vec![("10.1/a", "publisher", Provenance::Publisher), ("10.1/b", "b-crossref", Provenance::Crossref)]
    );
    assert_eq!(x.citation_count, 2);
    assert_eq!(x.reference_count, 2);
    assert_eq!(entries[1].cited_id, "10.9/y");
    assert_eq!(entries[1].citation_count, 1);
}

#[test]
fn counts_are_the_number_of_distinct_citing_works() {
    let mut rows = Vec::new();
    for i in 0..20 {
        let citing = format!("10.1/w{}", i % 7);
        let cited = format!("10.9/c{}", i % 3);
        rows.push(edge(&citing, &cited, &format!("r{}", i), Provenance::Mined));
    }
    let entries = invert_partition(&rows, OutputMode::Generic);
    assert_eq!(entries.len(), 3);
    for e in &entries {
        let mut dois: Vec<&str> = e.cited_by.iter().map(|c| c.doi.as_str()).collect();
        dois.sort();
        dois.dedup();
        assert_eq!(e.citation_count, dois.len());
        assert_eq!(e.reference_count, e.cited_by.len());
        assert_eq!(e.cited_by.len(), dois.len());
    }
}

#[test]
fn inverting_nothing_gives_nothing() {
    assert!(invert_partition(&Vec::new(), OutputMode::Arxiv).is_empty());
    assert!(assemble(Vec::new()).is_empty());
    assert!(assemble(vec![Vec::new(), Vec::new()]).is_empty());
    assert!(sort_entries(Vec::new()).is_empty());
}

#[test]
fn entries_are_sorted_by_count_then_identifier() {
    let sorted = sort_entries(vec![
        entry("10.1/b", 2),
        entry("10.1/z", 5),
        entry("10.1/a", 2),
        entry("10.1/c", 1),
        entry("10.1/A", 2),
        entry("10.1/m", 9),
    ]);
    assert_eq!(
        keys(&sorted),
        vec![
            (9, "10.1/m".to_string()),
            (5, "10.1/z".to_string()),
            (2, "10.1/A".to_string()),
            (2, "10.1/a".to_string()),
            (2, "10.1/b".to_string()),
            (1, "10.1/c".to_string()),
        ]
    );
    for pair in sorted.windows(2) {
        assert!(pair[0].citation_count >= pair[1].citation_count);
        assert!(!entry_precedes(&pair[1], &pair[0]));
    }
}

#[test]
fn precedence_is_by_count_then_identifier() {
    assert!(entry_precedes(&entry("b", 3), &entry("a", 2)));
    assert!(!entry_precedes(&entry("a", 2), &entry("b", 3)));
    assert!(entry_precedes(&entry("a", 2), &entry("b", 2)));
    assert!(entry_precedes(&entry("a", 2), &entry("ab", 2)));
    assert!(!entry_precedes(&entry("a", 2), &entry("a", 2)));
    assert!(entry_precedes(&entry("", 2), &entry("a", 2)));
    assert!(entry_precedes(&entry("z", 2), &entry("é", 2)));
}

#[test]
fn assembly_keeps_every_entry() {
    let mut parts = Vec::new();
    let mut expected = Vec::new();
    for p in 0..5usize {
        let mut part = Vec::new();
        for k in 0..(p + 2) {
            let e = entry(&format!("10.{}/{}", p, k), (p * 7 + k * 3) % 5);
            expected.push((e.citation_count, e.cited_id.clone()));
            part.push(e);
        }
        parts.push(part);
    }
    let out = assemble(parts);
    expected.sort_by(|a, b| b.0.cmp(&a.0).then(a.1.cmp(&b.1)));
    assert_eq!(keys(&out), expected);
}

#[test]
fn resumed_run_inverts_only_what_is_pending() {
    let names = vec!["k1".to_string(), "k2".to_string(), "k3".to_string()];
    let parts = vec![
        vec![edge("10.1/a", "k1-x", "r", Provenance::Mined), edge("10.1/b", "k1-x", "r", Provenance::Mined)],
        vec![edge("10.1/a", "k2-y", "r", Provenance::Publisher)],
        vec![edge("10.1/c", "k3-z", "r", Provenance::Mined), edge("10.1/c", "k3-w", "r", Provenance::Crossref)],
    ];
    let mut cp = Checkpoint::new("run");
    cp.start_invert_phase();
    assert_eq!(pending_partitions(&names, &cp), names);

    let single = assemble(parts.iter().map(|rows| invert_partition(rows, OutputMode::Generic)).collect());

    let mut stored: Vec<Vec<InvertedEntry>> = Vec::new();
    for i in 0..2 {
        stored.push(invert_partition(&parts[i], OutputMode::Generic));
        cp.mark_partition_inverted(&names[i]);
    }
    assert!(cp.is_partition_inverted("k1"));
    assert!(cp.is_partition_inverted("k2"));
    let todo = pending_partitions(&names, &cp);
    assert_eq!(todo, vec!["k3".to_string()]);
    let mut resumed_parts = vec![invert_partition(&parts[2], OutputMode::Generic)];
    resumed_parts.extend(stored);
    let resumed = assemble(resumed_parts);

    assert_eq!(keys(&resumed), keys(&single));
    assert_eq!(keys(&single)[0], (2, "k1-x".to_string()));
    cp.mark_partition_inverted("k3");
    assert!(pending_partitions(&names, &cp).is_empty());
}
