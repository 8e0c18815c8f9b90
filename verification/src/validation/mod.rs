//! Validating inverted records against the registries.

pub mod http;
pub mod lookup;
pub mod prefix_filter;
pub mod runner;

pub use lookup::{lookup_doi, LookupResult};
pub use prefix_filter::{has_known_prefix, prefix_source, PrefixMatch};

use crate::cli::Source;
use crate::index::DoiIndex;
use vstd::prelude::*;

verus! {

/// What a validation run has at hand: the indexes that were loaded, and for
/// which sources the HTTP fallback is switched on.
pub struct ValidationContext {
    /// The Crossref index, when there is one.
    pub crossref_index: Option<DoiIndex>,
    /// The DataCite index, when there is one.
    pub datacite_index: Option<DoiIndex>,
    /// Whether unmatched Crossref DOIs are resolved over HTTP.
    pub http_fallback_crossref: bool,
    /// Whether unmatched DataCite DOIs are resolved over HTTP.
    pub http_fallback_datacite: bool,
    /// The number of HTTP requests in flight at once.
    pub concurrency: usize,
    /// The timeout of one HTTP request, in seconds.
    pub timeout_secs: u64,
}

impl ValidationContext {
    /// Whether records of `source` can be validated with what is at hand.
    pub open spec fn can_validate_spec(&self, source: Source) -> bool {
        match source {
            Source::All => self.crossref_index is Some || self.datacite_index is Some,
            Source::Crossref => self.crossref_index is Some || self.http_fallback_crossref,
            Source::Datacite | Source::Arxiv => self.datacite_index is Some
                || self.http_fallback_datacite,
        }
    }

    /// A context without indexes and without fallback, with 50 requests in
    /// flight and a timeout of 5 seconds.
    pub fn new() -> (ctx: Self)
        ensures
            ctx.crossref_index is None,
            ctx.datacite_index is None,
            !ctx.http_fallback_crossref,
            !ctx.http_fallback_datacite,
            ctx.concurrency == 50,
            ctx.timeout_secs == 5,
    {
        Self {
            crossref_index: None,
            datacite_index: None,
            http_fallback_crossref: false,
            http_fallback_datacite: false,
            concurrency: 50,
            timeout_secs: 5,
        }
    }

    /// Whether the context has what the validation of `source` needs: an
    /// index of either registry for `All`; otherwise the index of the
    /// registry concerned, or its HTTP fallback.
    pub fn can_validate(&self, source: Source) -> (r: bool)
        ensures
            r == self.can_validate_spec(source),
    {
        match source {
            Source::All => self.crossref_index.is_some() || self.datacite_index.is_some(),
            Source::Crossref => self.crossref_index.is_some() || self.http_fallback_crossref,
            Source::Datacite | Source::Arxiv => self.datacite_index.is_some()
                || self.http_fallback_datacite,
        }
    }
}

impl Default for ValidationContext {
    fn default() -> (ctx: Self)
        ensures
            ctx.crossref_index is None,
            ctx.datacite_index is None,
            !ctx.http_fallback_crossref,
            !ctx.http_fallback_datacite,
            ctx.concurrency == 50,
            ctx.timeout_secs == 5,
    {
        Self::new()
    }
}

} // verus!
