use citation_extraction::extract::Provenance;
use citation_extraction::streaming::partition_writer::{partition_file_name, PartitionError};
use citation_extraction::streaming::{partition_key, ExplodedRow, PartitionWriter};

fn row(citing: &str, ref_index: u32, raw: &str, cited: &str, provenance: Provenance) -> ExplodedRow {
    ExplodedRow {
        citing_doi: citing.to_string(),
        ref_index,
        ref_json: "{}".to_string(),
        raw_match: raw.to_string(),
        cited_id: cited.to_string(),
        provenance,
    }
}

#[test]
fn test_partition_writer_basic() {
    let mut writer = PartitionWriter::new(10);

    let due = writer.write(row("10.1234/test", 0, "arXiv:2403.12345", "2403.12345", Provenance::Mined));
    assert!(due.is_none());

    let batches = writer.flush_all();
    assert_eq!(batches.len(), 1);
    assert_eq!(partition_file_name(&batches[0].partition, "parquet"), "2403.parquet");
    assert_eq!(batches[0].rows.len(), 1);
}

#[test]
fn test_partition_writer_multiple_partitions() {
    let mut writer = PartitionWriter::new(100);

    assert!(writer.write(row("10.1234/a", 0, "arXiv:2403.12345", "2403.12345", Provenance::Mined)).is_none());
    assert!(writer.write(row("10.1234/b", 1, "arXiv:hep-ph/9901234", "hep-ph/9901234", Provenance::Mined)).is_none());

    let batches = writer.flush_all();
    let mut files: Vec<String> = batches.iter().map(|b| partition_file_name(&b.partition, "parquet")).collect();
    files.sort();
    assert_eq!(files, vec!["2403.parquet".to_string(), "hep-.parquet".to_string()]);
    assert_eq!(writer.partition_count(), 2);
}

#[test]
fn test_write_extracted_ref() {
    let mut writer = PartitionWriter::new(100);

    let outcome = writer
        .write_extracted_ref(
            "10.1234/test",
            0,
            "{}",
            &["arXiv:2403.12345".to_string(), "arXiv:2403.67890".to_string()],
            &["2403.12345".to_string(), "2403.67890".to_string()],
            &[Provenance::Mined, Provenance::Mined],
        )
        .unwrap();

    assert_eq!(outcome.rows_written, 2);
    assert!(outcome.batches.is_empty());
    let batches = writer.flush_all();
    assert_eq!(batches.len(), 1);
    assert_eq!(batches[0].rows.len(), 2);
}

#[test]
fn test_partition_writer_with_provenance() {
    let mut writer = PartitionWriter::new(10);

    writer.write(row("10.1234/test", 0, "10.5678/cited", "10.5678/cited", Provenance::Publisher));

    let batches = writer.flush_all();
    assert_eq!(batches.len(), 1);
    assert_eq!(partition_file_name(&batches[0].partition, "parquet"), "10.5678.parquet");
    assert_eq!(batches[0].rows[0].provenance.as_str(), "publisher");
}

#[test]
fn buffer_is_handed_out_at_the_threshold() {
    let mut writer = PartitionWriter::new(3);
    assert!(writer.write(row("10.1/a", 0, "r1", "2403.00001", Provenance::Mined)).is_none());
    assert!(writer.write(row("10.1/b", 0, "r2", "2403.00002", Provenance::Mined)).is_none());
    assert!(writer.write(row("10.1/c", 0, "r3", "hep-th/1", Provenance::Mined)).is_none());
    let batch = writer.write(row("10.1/d", 0, "r4", "2403.00003", Provenance::Mined)).unwrap();
    assert_eq!(batch.partition, "2403");
    let raws: Vec<&str> = batch.rows.iter().map(|r| r.raw_match.as_str()).collect();
    assert_eq!(raws, vec!["r1", "r2", "r4"]);
    assert!(writer.write(row("10.1/e", 0, "r5", "2403.00004", Provenance::Mined)).is_none());
    let rest = writer.flush_all();
    assert_eq!(rest.len(), 2);
    assert!(writer.flush_all().is_empty());
    assert_eq!(writer.partition_count(), 2);
}

#[test]
fn threshold_of_zero_or_one_hands_every_row_out() {
    for threshold in [0usize, 1] {
        let mut writer = PartitionWriter::new(threshold);
        let batch = writer.write(row("10.1/a", 0, "r", "2403.00001", Provenance::Mined)).unwrap();
        assert_eq!(batch.rows.len(), 1);
        assert!(writer.flush_all().is_empty());
    }
}

#[test]
fn lists_of_different_length_are_refused() {
    let mut writer = PartitionWriter::new(100);
    let refused = writer.write_extracted_ref(
        "10.1234/test",
        0,
        "{}",
        &["a".to_string()],
        &["2403.12345".to_string(), "2403.67890".to_string()],
        &[Provenance::Mined, Provenance::Mined],
    );
    assert_eq!(refused.err(), Some(PartitionError::LengthMismatch));
    let refused = writer.write_extracted_ref("10.1234/test", 0, "{}", &["a".to_string()], &["2403.12345".to_string()], &[]);
    assert_eq!(refused.err(), Some(PartitionError::LengthMismatch));
    assert!(writer.flush_all().is_empty());
    assert_eq!(writer.partition_count(), 0);
}

#[test]
fn every_row_reaches_exactly_the_partition_of_its_key() {
    let ids = [
        "10.1234/a", "10.1234/b", "10.5678/c", "2403.00001", "hep-th/9901001", "10.1234/A", "2403.00002",
        "10.5678/d", "cs/0001001", "10.1234/a",
    ];
    let mut writer = PartitionWriter::new(2);
    let mut files: std::collections::BTreeMap<String, Vec<String>> = std::collections::BTreeMap::new();
    for (i, id) in ids.iter().enumerate() {
        let due = writer.write(row("10.9999/citing", i as u32, &format!("raw{}", i), id, Provenance::Mined));
        if let Some(batch) = due {
            files.entry(batch.partition).or_default().extend(batch.rows.into_iter().map(|r| r.raw_match));
        }
    }
    for batch in writer.flush_all() {
        files.entry(batch.partition).or_default().extend(batch.rows.into_iter().map(|r| r.raw_match));
    }
    let mut seen: Vec<String> = Vec::new();
    for (partition, raws) in &files {
        for raw in raws {
            let i: usize = raw[3..].parse().unwrap();
            assert_eq!(&partition_key(ids[i]), partition);
            seen.push(raw.clone());
        }
    }
    seen.sort();
    let mut expected: Vec<String> = (0..ids.len()).map(|i| format!("raw{}", i)).collect();
    expected.sort();
    assert_eq!(seen, expected);
    assert_eq!(files["10.1234"], vec!["raw0", "raw1", "raw5", "raw9"]);
}

#[test]
fn row_copy_is_equal_field_by_field() {
    let r = row("10.1/a", 7, "raw", "10.2000/b", Provenance::Crossref);
    let c = r.duplicate();
    assert_eq!(c.citing_doi, r.citing_doi);
    assert_eq!(c.ref_index, 7);
    assert_eq!(c.ref_json, r.ref_json);
    assert_eq!(c.raw_match, r.raw_match);
    assert_eq!(c.cited_id, r.cited_id);
    assert_eq!(c.provenance, Provenance::Crossref);
}
