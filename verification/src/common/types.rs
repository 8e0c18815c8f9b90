//! Records and counters that pass between the stages.

use crate::text::joined;
use vstd::prelude::*;

verus! {

/// The lead of the DOI that the registry issues for an arXiv identifier.
pub const ARXIV_DOI_LEAD: &'static str = "10.48550/arXiv.";

/// The DOI that stands for the arXiv identifier `id`.
pub open spec fn arxiv_doi_spec(id: Seq<char>) -> Seq<char> {
    ARXIV_DOI_LEAD@ + id
}

/// The DOI that stands for the arXiv identifier `id`.
pub fn arxiv_doi_for(id: &str) -> (r: String)
    ensures
        r@ == arxiv_doi_spec(id@),
{
    joined(ARXIV_DOI_LEAD, id)
}

/// One arXiv match: the normalized identifier, the matched text, and the DOI
/// built from the identifier.
#[derive(Debug, Clone)]
pub struct ArxivMatch {
    /// Normalized arXiv identifier (lowercase, no whitespace, no version).
    pub id: String,
    /// The matched substring as it stood in the text.
    pub raw: String,
    /// `10.48550/arXiv.` followed by `id`.
    pub arxiv_doi: String,
}

/// The mathematical value of an [`ArxivMatch`].
pub struct ArxivMatchView {
    pub id: Seq<char>,
    pub raw: Seq<char>,
    pub arxiv_doi: Seq<char>,
}

impl DeepView for ArxivMatch {
    type V = ArxivMatchView;

    open spec fn deep_view(&self) -> ArxivMatchView {
        ArxivMatchView { id: self.id@, raw: self.raw@, arxiv_doi: self.arxiv_doi@ }
    }
}

impl View for ArxivMatch {
    type V = ArxivMatchView;

    open spec fn view(&self) -> ArxivMatchView {
        self.deep_view()
    }
}

impl ArxivMatch {
    /// The match for the normalized identifier `id` found as `raw`.
    pub fn new(id: String, raw: String) -> (m: Self)
        ensures
            m.id == id,
            m.raw == raw,
            m.arxiv_doi@ == arxiv_doi_spec(id@),
    {
        let arxiv_doi = arxiv_doi_for(id.as_str());
        Self { id, raw, arxiv_doi }
    }
}

/// A record of the DataCite dump; only its identifier is read.
#[derive(Debug, Clone)]
pub struct DataCiteRecord {
    /// The DOI of the record.
    pub id: String,
}

/// Counters of an extraction.
#[derive(Debug, Clone, Copy, Default)]
pub struct ExtractStats {
    pub total_references: usize,
    pub references_with_matches: usize,
    pub total_arxiv_ids: usize,
}

/// Counters of an inversion of extracted references.
#[derive(Debug, Clone, Copy, Default)]
pub struct InvertStats {
    pub total_rows_processed: usize,
    pub unique_arxiv_works: usize,
    pub unique_citing_works: usize,
}

/// Counters of a validation against one registry.
#[derive(Debug, Clone, Copy, Default)]
pub struct ValidateStats {
    pub total_records: usize,
    pub matched_in_datacite: usize,
    pub resolution_resolved: usize,
    pub resolution_failed: usize,
    pub total_valid: usize,
    pub total_failed: usize,
}

/// Counters of a conversion of the archive.
#[derive(Debug, Clone, Copy, Default)]
pub struct ConvertStats {
    pub json_files_processed: usize,
    pub total_records: usize,
    pub total_references: usize,
    pub references_with_hint: usize,
}

} // verus!
