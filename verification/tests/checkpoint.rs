use citation_extraction::streaming::{Checkpoint, CheckpointStats, PipelinePhase};

#[test]
fn test_checkpoint_new() {
    let cp = Checkpoint::new("test123");
    assert_eq!(cp.run_id, "test123");
    assert_eq!(cp.phase, PipelinePhase::ConvertExtract);
    assert!(cp.partitions_written.is_empty());
    assert!(cp.partitions_inverted.is_empty());
}

#[test]
fn test_partition_tracking() {
    let mut cp = Checkpoint::new("test");

    cp.partitions_written.insert("2403".to_string());
    cp.mark_partition_inverted("2403");

    assert!(cp.partitions_written.contains("2403"));
    assert!(cp.is_partition_inverted("2403"));
    assert!(!cp.is_partition_inverted("2404"));
}

#[test]
fn checkpoint_phase_only_advances() {
    let mut cp = Checkpoint::new("run");
    assert_eq!(cp.tar_entries_processed, 0);
    assert_eq!(cp.stats, CheckpointStats::default());
    cp.start_invert_phase();
    assert_eq!(cp.phase, PipelinePhase::Invert);
    cp.start_invert_phase();
    assert_eq!(cp.phase, PipelinePhase::Invert);
    cp.mark_complete();
    assert_eq!(cp.phase, PipelinePhase::Complete);
    cp.start_invert_phase();
    assert_eq!(cp.phase, PipelinePhase::Complete);
}

#[test]
fn checkpoint_inverted_partitions_only_grow() {
    let mut cp = Checkpoint::new("run");
    cp.mark_partition_inverted("a");
    cp.mark_partition_inverted("b");
    cp.mark_partition_inverted("a");
    assert_eq!(cp.partitions_inverted.len(), 2);
    assert_eq!(cp.partitions_inverted.items().clone(), vec!["a".to_string(), "b".to_string()]);
}

#[test]
fn checkpoint_progress_never_goes_back() {
    let mut cp = Checkpoint::new("run");
    let mut stats = CheckpointStats::new();
    stats.total_references = 1000;
    cp.record_progress(7, stats);
    assert_eq!(cp.tar_entries_processed, 7);
    assert_eq!(cp.stats.total_references, 1000);
    cp.record_progress(3, CheckpointStats::new());
    assert_eq!(cp.tar_entries_processed, 7);
    assert_eq!(cp.stats.total_references, 1000);
}
