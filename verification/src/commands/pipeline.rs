//! The decisions of the `pipeline` command.

use crate::cli::{PipelineArgs, Source};
use crate::streaming::checkpoint::CheckpointStats;
use crate::streaming::partition_invert::OutputMode;
use crate::text::{lower, lowercase, str_eq};
use vstd::prelude::*;

verus! {

/// Progress is reported every so many files.
pub const PROGRESS_LOG_INTERVAL: usize = 100;

/// The batch size is divided by this to give the flush threshold.
pub const FLUSH_THRESHOLD_DIVISOR: usize = 100;

/// The smallest flush threshold that is used.
pub const MIN_FLUSH_THRESHOLD: usize = 10000;

/// A work that cites `cited` is kept unless it is `cited` itself: the two
/// identifiers differ once they are lowercased.
pub open spec fn includes_citation(citing: Seq<char>, cited: Seq<char>) -> bool {
    lower(citing) != lower(cited)
}

/// Whether a citation is kept: self-citations, compared without regard to
/// case, are not.
pub fn should_include_citation(citing_doi: &str, cited_id: &str) -> (r: bool)
    ensures
        r == includes_citation(citing_doi@, cited_id@),
{
    let a = lowercase(citing_doi);
    let b = lowercase(cited_id);
    !str_eq(a.as_str(), b.as_str())
}

/// `a + b`, or the largest `usize` when the sum does not fit.
pub open spec fn capped_sum(a: usize, b: nat) -> usize {
    if a + b > usize::MAX {
        usize::MAX
    } else {
        (a + b) as usize
    }
}

/// Counters of the extraction phase. A counter that has reached the largest
/// `usize` stays there.
#[derive(Debug, Clone, Copy, PartialEq, Eq, Structural)]
pub struct ExtractionStats {
    /// Archive entries that were parsed.
    pub files_processed: usize,
    /// Items that were looked at.
    pub items_processed: usize,
    /// References that gave at least one edge.
    pub refs_with_matches: usize,
    /// Edges that were written.
    pub total_matches: usize,
    /// DOIs that were offered to the Crossref index.
    pub crossref_dois_indexed: usize,
}

impl ExtractionStats {
    /// Counters that are all zero.
    pub open spec fn zero() -> Self {
        ExtractionStats {
            files_processed: 0,
            items_processed: 0,
            refs_with_matches: 0,
            total_matches: 0,
            crossref_dois_indexed: 0,
        }
    }

    /// Counters that are all zero.
    pub fn new() -> (s: Self)
        ensures
            s == ExtractionStats::zero(),
    {
        ExtractionStats {
            files_processed: 0,
            items_processed: 0,
            refs_with_matches: 0,
            total_matches: 0,
            crossref_dois_indexed: 0,
        }
    }
}

impl ExtractionStats {
    /// The counters as a checkpoint carries them. References without a match
    /// are not counted during extraction, so their total is left at zero.
    pub fn for_checkpoint(&self) -> (r: CheckpointStats)
        ensures
            r.json_files_processed == self.files_processed,
            r.total_records == self.items_processed,
            r.total_references == 0,
            r.references_with_matches == self.refs_with_matches,
            r.total_arxiv_ids_extracted == self.total_matches,
    {
        CheckpointStats {
            json_files_processed: self.files_processed,
            total_records: self.items_processed,
            total_references: 0,
            references_with_matches: self.refs_with_matches,
            total_arxiv_ids_extracted: self.total_matches,
        }
    }
}

impl Default for ExtractionStats {
    fn default() -> (s: Self)
        ensures
            s == ExtractionStats::zero(),
    {
        ExtractionStats::new()
    }
}

/// What is wrong with the arguments of a run.
#[derive(Debug, Clone, Copy, PartialEq, Eq, Structural)]
pub enum ConfigError {
    /// Source `all` without both output files.
    AllNeedsBothOutputs,
    /// Source `crossref` without its output file.
    CrossrefNeedsOutput,
    /// Source `datacite` without its output file.
    DataciteNeedsOutput,
    /// Source `datacite` without records and without a saved index.
    DataciteNeedsRecords,
    /// Source `arxiv` without its output file.
    ArxivNeedsOutput,
    /// Source `arxiv` without records and without a saved index.
    ArxivNeedsRecords,
}

impl ConfigError {
    /// The message of the error.
    pub open spec fn message(self) -> Seq<char> {
        match self {
            ConfigError::AllNeedsBothOutputs => "Source 'all' requires both --output-crossref and --output-datacite"@,
            ConfigError::CrossrefNeedsOutput => "Source 'crossref' requires --output-crossref"@,
            ConfigError::DataciteNeedsOutput => "Source 'datacite' requires --output-datacite"@,
            ConfigError::DataciteNeedsRecords => "Source 'datacite' requires --datacite-records or --load-datacite-index"@,
            ConfigError::ArxivNeedsOutput => "Source 'arxiv' requires --output-arxiv"@,
            ConfigError::ArxivNeedsRecords => "Source 'arxiv' requires --datacite-records or --load-datacite-index"@,
        }
    }

    /// The message of the error.
    pub fn to_string(&self) -> (r: String)
        ensures
            r@ == self.message(),
    {
        let text = match self {
            ConfigError::AllNeedsBothOutputs => "Source 'all' requires both --output-crossref and --output-datacite",
            ConfigError::CrossrefNeedsOutput => "Source 'crossref' requires --output-crossref",
            ConfigError::DataciteNeedsOutput => "Source 'datacite' requires --output-datacite",
            ConfigError::DataciteNeedsRecords => "Source 'datacite' requires --datacite-records or --load-datacite-index",
            ConfigError::ArxivNeedsOutput => "Source 'arxiv' requires --output-arxiv",
            ConfigError::ArxivNeedsRecords => "Source 'arxiv' requires --datacite-records or --load-datacite-index",
        };
        text.to_owned()
    }
}

/// What the arguments lack for the source that they name, if anything:
/// `all` needs both output files; `crossref` needs its output file;
/// `datacite` and `arxiv` need their output file, and then DataCite records
/// or a saved DataCite index.
pub open spec fn validate_args_spec(args: &PipelineArgs) -> Result<(), ConfigError> {
    match args.source {
        Source::All => if args.output_crossref is None || args.output_datacite is None {
            Err(ConfigError::AllNeedsBothOutputs)
        } else {
            Ok(())
        },
        Source::Crossref => if args.output_crossref is None {
            Err(ConfigError::CrossrefNeedsOutput)
        } else {
            Ok(())
        },
        Source::Datacite => if args.output_datacite is None {
            Err(ConfigError::DataciteNeedsOutput)
        } else if args.datacite_records is None && args.load_datacite_index is None {
            Err(ConfigError::DataciteNeedsRecords)
        } else {
            Ok(())
        },
        Source::Arxiv => if args.output_arxiv is None {
            Err(ConfigError::ArxivNeedsOutput)
        } else if args.datacite_records is None && args.load_datacite_index is None {
            Err(ConfigError::ArxivNeedsRecords)
        } else {
            Ok(())
        },
    }
}

/// Checks that the arguments hold what their source needs, before any work
/// starts.
pub fn validate_args(args: &PipelineArgs) -> (r: Result<(), ConfigError>)
    ensures
        r == validate_args_spec(args),
{
    match args.source {
        Source::All => {
            if args.output_crossref.is_none() || args.output_datacite.is_none() {
                return Err(ConfigError::AllNeedsBothOutputs);
            }
        },
        Source::Crossref => {
            if args.output_crossref.is_none() {
                return Err(ConfigError::CrossrefNeedsOutput);
            }
        },
        Source::Datacite => {
            if args.output_datacite.is_none() {
                return Err(ConfigError::DataciteNeedsOutput);
            }
            if args.datacite_records.is_none() && args.load_datacite_index.is_none() {
                return Err(ConfigError::DataciteNeedsRecords);
            }
        },
        Source::Arxiv => {
            if args.output_arxiv.is_none() {
                return Err(ConfigError::ArxivNeedsOutput);
            }
            if args.datacite_records.is_none() && args.load_datacite_index.is_none() {
                return Err(ConfigError::ArxivNeedsRecords);
            }
        },
    }
    Ok(())
}

/// Whether the Crossref index is built while the archive is streamed: no
/// saved index is loaded, and the source is `all` or `crossref`.
pub fn should_build_crossref_index(args: &PipelineArgs) -> (r: bool)
    ensures
        r == (args.load_crossref_index is None && (args.source == Source::All || args.source
            == Source::Crossref)),
{
    let wanted = match args.source {
        Source::All => true,
        Source::Crossref => true,
        _ => false,
    };
    args.load_crossref_index.is_none() && wanted
}

/// Where an index comes from.
#[derive(Debug, Clone, PartialEq, Eq)]
pub enum IndexOrigin {
    /// No index is loaded.
    Absent,
    /// The index is loaded from the snapshot at this path.
    Snapshot(String),
    /// The index is built from the records file at this path.
    Records(String),
}

/// Where the two indexes of a run come from.
pub struct IndexPlan {
    /// The Crossref index: a snapshot, or none (it may be built while the
    /// archive is streamed).
    pub crossref: IndexOrigin,
    /// The DataCite index: a snapshot, failing that the records file.
    pub datacite: IndexOrigin,
}

fn copy_of(s: &String) -> (r: String)
    ensures
        r@ == s@,
{
    s.clone()
}

/// Decides where the indexes are loaded from: the Crossref index from its
/// snapshot if one is named; the DataCite index from its snapshot if one is
/// named, failing that from the records file if one is named.
pub fn load_indexes(args: &PipelineArgs) -> (plan: IndexPlan)
    ensures
        match plan.crossref {
            IndexOrigin::Snapshot(p) => args.load_crossref_index is Some && p@
                == args.load_crossref_index->0@,
            IndexOrigin::Absent => args.load_crossref_index is None,
            IndexOrigin::Records(p) => false,
        },
        match plan.datacite {
            IndexOrigin::Snapshot(p) => args.load_datacite_index is Some && p@
                == args.load_datacite_index->0@,
            IndexOrigin::Records(p) => args.load_datacite_index is None && args.datacite_records
                is Some && p@ == args.datacite_records->0@,
            IndexOrigin::Absent => args.load_datacite_index is None && args.datacite_records
                is None,
        },
{
    let crossref = match &args.load_crossref_index {
        Some(path) => IndexOrigin::Snapshot(copy_of(path)),
        None => IndexOrigin::Absent,
    };
    let datacite = match &args.load_datacite_index {
        Some(path) => IndexOrigin::Snapshot(copy_of(path)),
        None => match &args.datacite_records {
            Some(path) => IndexOrigin::Records(copy_of(path)),
            None => IndexOrigin::Absent,
        },
    };
    IndexPlan { crossref, datacite }
}

/// The flush threshold for a batch size: the batch size divided by
/// [`FLUSH_THRESHOLD_DIVISOR`], and at least [`MIN_FLUSH_THRESHOLD`].
pub fn flush_threshold_for(batch_size: usize) -> (r: usize)
    ensures
        r == (if batch_size / FLUSH_THRESHOLD_DIVISOR >= MIN_FLUSH_THRESHOLD {
            batch_size / FLUSH_THRESHOLD_DIVISOR
        } else {
            MIN_FLUSH_THRESHOLD
        }),
{
    let t = batch_size / FLUSH_THRESHOLD_DIVISOR;
    if t >= MIN_FLUSH_THRESHOLD {
        t
    } else {
        MIN_FLUSH_THRESHOLD
    }
}

/// The output file that the inverted index of the run is written to: the
/// one of the source; none for `all`, whose outputs are written after
/// validation.
pub fn inverted_output(args: &PipelineArgs) -> (r: Option<String>)
    ensures
        r.deep_view() == (match args.source {
            Source::Arxiv => args.output_arxiv.deep_view(),
            Source::Crossref => args.output_crossref.deep_view(),
            Source::Datacite => args.output_datacite.deep_view(),
            Source::All => None,
        }),
{
    let chosen = match args.source {
        Source::Arxiv => &args.output_arxiv,
        Source::Crossref => &args.output_crossref,
        Source::Datacite => &args.output_datacite,
        Source::All => {
            return None;
        },
    };
    match chosen {
        Some(path) => Some(copy_of(path)),
        None => None,
    }
}

/// The shape in which the inverted index of a source is written: the arXiv
/// shape for `arxiv`, the generic shape for every other source.
pub fn output_mode_for(source: Source) -> (mode: OutputMode)
    ensures
        mode == (if source == Source::Arxiv {
            OutputMode::Arxiv
        } else {
            OutputMode::Generic
        }),
{
    match source {
        Source::Arxiv => OutputMode::Arxiv,
        _ => OutputMode::Generic,
    }
}

/// How the validated records of a run are written.
#[derive(Debug, Clone, Copy, PartialEq, Eq, Structural)]
pub enum OutputShape {
    /// One output for each registry that confirmed the cited work.
    BySource,
    /// One output, with siblings for the asserted and the mined citations.
    ByProvenance,
    /// The arXiv output.
    Arxiv,
}

/// The way in which the validated records of a source are written: by
/// registry for `all`, by provenance for `crossref` and `datacite`, and in
/// the arXiv shape for `arxiv`.
pub fn output_shape_for(source: Source) -> (s: OutputShape)
    ensures
        s == match source {
            Source::All => OutputShape::BySource,
            Source::Crossref | Source::Datacite => OutputShape::ByProvenance,
            Source::Arxiv => OutputShape::Arxiv,
        },
{
    match source {
        Source::All => OutputShape::BySource,
        Source::Crossref => OutputShape::ByProvenance,
        Source::Datacite => OutputShape::ByProvenance,
        Source::Arxiv => OutputShape::Arxiv,
    }
}

/// Some entry of `list` is `crossref`, `datacite` or `all`.
pub open spec fn names_fallback(list: Seq<Seq<char>>) -> bool {
    exists|i: int|
        0 <= i < list.len() && (#[trigger] list[i] == "crossref"@ || list[i] == "datacite"@
            || list[i] == "all"@)
}

/// Whether the HTTP fallback is enabled: the list names `crossref`,
/// `datacite` or `all`.
pub fn http_fallback_enabled(list: &Vec<String>) -> (r: bool)
    ensures
        r == names_fallback(list.deep_view()),
{
    let mut i: usize = 0;
    while i < list.len()
        invariant
            i <= list.len(),
            forall|j: int|
                0 <= j < i ==> !(#[trigger] list.deep_view()[j] == "crossref"@
                    || list.deep_view()[j] == "datacite"@ || list.deep_view()[j] == "all"@),
        decreases list.len() - i,
    {
        let s = list[i].as_str();
        assert(list.deep_view()[i as int] == s@);
        if str_eq(s, "crossref") || str_eq(s, "datacite") || str_eq(s, "all") {
            return true;
        }
        i += 1;
    }
    false
}

/// Whether the partition directory is removed at the end: it was made by
/// the run itself, and intermediates are not kept.
pub fn should_clean_up(args: &PipelineArgs) -> (r: bool)
    ensures
        r == (args.temp_dir is None && !args.keep_intermediates),
{
    args.temp_dir.is_none() && !args.keep_intermediates
}

/// Whether the validation phase runs: an index is at hand and the inverted
/// index was written out.
pub fn should_validate(has_crossref: bool, has_datacite: bool, has_output: bool) -> (r: bool)
    ensures
        r == ((has_crossref || has_datacite) && has_output),
{
    (has_crossref || has_datacite) && has_output
}

} // verus!
