//! The choices that a run is configured with.

use crate::text::{joined, lower, lowercase, str_eq};
use vstd::prelude::*;

verus! {

/// The registry that a run extracts for and validates against.
#[derive(Debug, Clone, Copy, PartialEq, Eq, Structural)]
pub enum Source {
    /// Crossref first, then DataCite.
    All,
    /// Crossref only.
    Crossref,
    /// DataCite only.
    Datacite,
    /// arXiv identifiers, validated against DataCite.
    Arxiv,
}

impl Source {
    /// The lowercase name of the variant.
    pub open spec fn name(self) -> Seq<char> {
        match self {
            Source::All => "all"@,
            Source::Crossref => "crossref"@,
            Source::Datacite => "datacite"@,
            Source::Arxiv => "arxiv"@,
        }
    }

    /// The variant that `s` names, whatever its case.
    pub open spec fn parse_spec(s: Seq<char>) -> Option<Source> {
        let l = lower(s);
        if l == "all"@ {
            Some(Source::All)
        } else if l == "crossref"@ {
            Some(Source::Crossref)
        } else if l == "datacite"@ {
            Some(Source::Datacite)
        } else if l == "arxiv"@ {
            Some(Source::Arxiv)
        } else {
            None
        }
    }

    /// The message for a name that is no source.
    pub open spec fn refusal(s: Seq<char>) -> Seq<char> {
        "Invalid source: "@ + s + ". Valid options: all, crossref, datacite, arxiv"@
    }

    /// The lowercase name of the variant.
    pub fn as_str(&self) -> (r: &'static str)
        ensures
            r@ == self.name(),
    {
        match self {
            Source::All => "all",
            Source::Crossref => "crossref",
            Source::Datacite => "datacite",
            Source::Arxiv => "arxiv",
        }
    }

    /// Reads a source from its name, in any case.
    pub fn parse(s: &str) -> (r: Option<Source>)
        ensures
            r == Source::parse_spec(s@),
    {
        let l = lowercase(s);
        if str_eq(l.as_str(), "all") {
            Some(Source::All)
        } else if str_eq(l.as_str(), "crossref") {
            Some(Source::Crossref)
        } else if str_eq(l.as_str(), "datacite") {
            Some(Source::Datacite)
        } else if str_eq(l.as_str(), "arxiv") {
            Some(Source::Arxiv)
        } else {
            None
        }
    }
}

impl DeepView for Source {
    type V = Source;

    open spec fn deep_view(&self) -> Source {
        *self
    }
}

impl Default for Source {
    fn default() -> (r: Self)
        ensures
            r == Source::All,
    {
        Source::All
    }
}

impl std::str::FromStr for Source {
    type Err = String;

    fn from_str(s: &str) -> (r: Result<Self, String>)
        ensures
            match Source::parse_spec(s@) {
                Some(source) => r == Ok::<Source, String>(source),
                None => r is Err && r->Err_0@ == Source::refusal(s@),
            },
    {
        match Source::parse(s) {
            Some(source) => Ok(source),
            None => {
                let lead = joined("Invalid source: ", s);
                Err(joined(lead.as_str(), ". Valid options: all, crossref, datacite, arxiv"))
            },
        }
    }
}

/// Arguments of the `pipeline` command.
#[derive(Debug, Clone)]
pub struct PipelineArgs {
    /// Path to the Crossref snapshot archive.
    pub input: String,
    /// DataCite records file for validation.
    pub datacite_records: Option<String>,
    /// Source to extract.
    pub source: Source,
    /// Output file for Crossref citations.
    pub output_crossref: Option<String>,
    /// Output file for DataCite citations.
    pub output_datacite: Option<String>,
    /// Output file for arXiv citations.
    pub output_arxiv: Option<String>,
    /// Output file for failed Crossref validations.
    pub output_crossref_failed: Option<String>,
    /// Output file for failed DataCite validations.
    pub output_datacite_failed: Option<String>,
    /// Output file for failed arXiv validations.
    pub output_arxiv_failed: Option<String>,
    /// Sources for which the HTTP fallback is enabled.
    pub http_fallback: Vec<String>,
    /// Snapshot to load the Crossref index from.
    pub load_crossref_index: Option<String>,
    /// Snapshot to save the Crossref index to.
    pub save_crossref_index: Option<String>,
    /// Snapshot to load the DataCite index from.
    pub load_datacite_index: Option<String>,
    /// Snapshot to save the DataCite index to.
    pub save_datacite_index: Option<String>,
    /// Logging level.
    pub log_level: String,
    /// Concurrent HTTP requests for validation.
    pub concurrency: usize,
    /// Timeout in seconds per validation request.
    pub timeout: u64,
    /// Keep intermediate files.
    pub keep_intermediates: bool,
    /// Directory for intermediate partition files.
    pub temp_dir: Option<String>,
    /// Batch size for memory management during streaming.
    pub batch_size: usize,
}

/// Arguments of the `validate` command.
#[derive(Debug, Clone)]
pub struct ValidateArgs {
    /// Input citations file.
    pub input: String,
    /// DataCite records file.
    pub records: String,
    /// Output file for valid DOIs.
    pub output_valid: String,
    /// Output file for failed DOIs.
    pub output_failed: String,
    /// Concurrent HTTP requests.
    pub concurrency: usize,
    /// Timeout in seconds per request.
    pub timeout: u64,
    /// Logging level.
    pub log_level: String,
}

/// The commands of the program.
#[derive(Debug, Clone)]
pub enum Commands {
    /// Run the full pipeline: extract, partition, invert, validate.
    Pipeline(PipelineArgs),
    /// Validate a citations file that an earlier run produced.
    Validate(ValidateArgs),
}

/// A parsed command line.
#[derive(Debug, Clone)]
pub struct Cli {
    /// The command to run.
    pub command: Commands,
}

} // verus!
