//! The checkpoint: how far a run has come.

use crate::common::string_set::StringSet;
use crate::text::chars_of;
use crate::text::string_of;
use vstd::prelude::*;

verus! {

/// The name of the checkpoint file within the partition directory.
pub const CHECKPOINT_FILE: &'static str = "checkpoint.json";

/// The phase that a run is in. The phases follow one another in the order
/// in which they are declared.
#[derive(Debug, Clone, Copy, PartialEq, Eq, Structural)]
pub enum PipelinePhase {
    /// Streaming the archive: extracting edges and writing partitions.
    ConvertExtract,
    /// Inverting the partitions.
    Invert,
    /// The run is complete.
    Complete,
}

impl PipelinePhase {
    /// The position of the phase in the run.
    pub open spec fn rank(self) -> nat {
        match self {
            PipelinePhase::ConvertExtract => 0,
            PipelinePhase::Invert => 1,
            PipelinePhase::Complete => 2,
        }
    }
}

/// The counters that a checkpoint carries.
#[derive(Debug, Clone, Copy, PartialEq, Eq, Structural)]
pub struct CheckpointStats {
    pub json_files_processed: usize,
    pub total_records: usize,
    pub total_references: usize,
    pub references_with_matches: usize,
    pub total_arxiv_ids_extracted: usize,
}

impl CheckpointStats {
    /// Counters that are all zero.
    pub open spec fn zero() -> Self {
        CheckpointStats {
            json_files_processed: 0,
            total_records: 0,
            total_references: 0,
            references_with_matches: 0,
            total_arxiv_ids_extracted: 0,
        }
    }

    /// Counters that are all zero.
    pub fn new() -> (s: Self)
        ensures
            s == CheckpointStats::zero(),
    {
        CheckpointStats {
            json_files_processed: 0,
            total_records: 0,
            total_references: 0,
            references_with_matches: 0,
            total_arxiv_ids_extracted: 0,
        }
    }
}

impl Default for CheckpointStats {
    fn default() -> (s: Self)
        ensures
            s == CheckpointStats::zero(),
    {
        CheckpointStats::new()
    }
}

/// What a run needs to resume: its identifier, its phase, the number of
/// archive entries it has dealt with, and the partitions it has finished.
pub struct Checkpoint {
    /// Identifier of the run.
    pub run_id: String,
    /// The phase the run is in.
    pub phase: PipelinePhase,
    /// The ordinal of the last archive entry that was dealt with.
    pub tar_entries_processed: usize,
    /// The partitions that have been written in full.
    pub partitions_written: StringSet,
    /// The partitions that have been inverted.
    pub partitions_inverted: StringSet,
    /// Counters collected so far.
    pub stats: CheckpointStats,
}

impl Checkpoint {
    /// The two sets of partitions are well formed.
    pub open spec fn wf(&self) -> bool {
        self.partitions_written.wf() && self.partitions_inverted.wf()
    }

    /// A checkpoint at the start of the run `run_id`.
    pub fn new(run_id: &str) -> (cp: Self)
        ensures
            cp.wf(),
            cp.run_id@ == run_id@,
            cp.phase == PipelinePhase::ConvertExtract,
            cp.tar_entries_processed == 0,
            cp.partitions_written@ == Set::<Seq<char>>::empty(),
            cp.partitions_inverted@ == Set::<Seq<char>>::empty(),
            cp.stats == CheckpointStats::zero(),
    {
        let chars = chars_of(run_id);
        Self {
            run_id: string_of(&chars),
            phase: PipelinePhase::ConvertExtract,
            tar_entries_processed: 0,
            partitions_written: StringSet::new(),
            partitions_inverted: StringSet::new(),
            stats: CheckpointStats::new(),
        }
    }

    /// Whether the archive is still to be streamed: the run is in its first
    /// phase.
    pub fn extraction_pending(&self) -> (r: bool)
        ensures
            r == (self.phase == PipelinePhase::ConvertExtract),
    {
        match self.phase {
            PipelinePhase::ConvertExtract => true,
            _ => false,
        }
    }

    /// Records that a partition has been inverted. The set of inverted
    /// partitions only grows.
    pub fn mark_partition_inverted(&mut self, partition: &str)
        requires
            old(self).wf(),
        ensures
            final(self).wf(),
            final(self).partitions_inverted@ == old(self).partitions_inverted@.insert(partition@),
            old(self).partitions_inverted@.subset_of(final(self).partitions_inverted@),
            final(self).partitions_written == old(self).partitions_written,
            final(self).run_id == old(self).run_id,
            final(self).phase == old(self).phase,
            final(self).tar_entries_processed == old(self).tar_entries_processed,
            final(self).stats == old(self).stats,
    {
        let chars = chars_of(partition);
        self.partitions_inverted.insert(string_of(&chars));
    }

    /// Whether a partition has been inverted.
    pub fn is_partition_inverted(&self, partition: &str) -> (r: bool)
        ensures
            r == self.partitions_inverted@.contains(partition@),
    {
        self.partitions_inverted.contains(partition)
    }

    /// Moves on to the invert phase. A phase never goes back: a run that is
    /// complete stays complete.
    pub fn start_invert_phase(&mut self)
        ensures
            final(self).phase == (if old(self).phase == PipelinePhase::Complete {
                PipelinePhase::Complete
            } else {
                PipelinePhase::Invert
            }),
            final(self).phase.rank() >= old(self).phase.rank(),
            final(self).run_id == old(self).run_id,
            final(self).tar_entries_processed == old(self).tar_entries_processed,
            final(self).partitions_written == old(self).partitions_written,
            final(self).partitions_inverted == old(self).partitions_inverted,
            final(self).stats == old(self).stats,
    {
        match self.phase {
            PipelinePhase::Complete => {},
            _ => {
                self.phase = PipelinePhase::Invert;
            },
        }
    }

    /// Marks the run as complete.
    pub fn mark_complete(&mut self)
        ensures
            final(self).phase == PipelinePhase::Complete,
            final(self).phase.rank() >= old(self).phase.rank(),
            final(self).run_id == old(self).run_id,
            final(self).tar_entries_processed == old(self).tar_entries_processed,
            final(self).partitions_written == old(self).partitions_written,
            final(self).partitions_inverted == old(self).partitions_inverted,
            final(self).stats == old(self).stats,
    {
        self.phase = PipelinePhase::Complete;
    }

    /// Records that the archive entries up to `ordinal` have been dealt with,
    /// with the counters reached. The number of entries never goes back: an
    /// ordinal below the recorded one changes nothing.
    pub fn record_progress(&mut self, ordinal: usize, stats: CheckpointStats)
        ensures
            final(self).tar_entries_processed == (if ordinal >= old(self).tar_entries_processed {
                ordinal
            } else {
                old(self).tar_entries_processed
            }),
            final(self).stats == (if ordinal >= old(self).tar_entries_processed {
                stats
            } else {
                old(self).stats
            }),
            final(self).run_id == old(self).run_id,
            final(self).phase == old(self).phase,
            final(self).partitions_written == old(self).partitions_written,
            final(self).partitions_inverted == old(self).partitions_inverted,
    {
        if ordinal >= self.tar_entries_processed {
            self.tar_entries_processed = ordinal;
            self.stats = stats;
        }
    }
}

} // verus!
