//! Looking a DOI up in the indexes that a source mode consults.

use crate::cli::Source;
use crate::index::DoiIndex;
use crate::text::lower;
use vstd::prelude::*;

verus! {

/// The outcome of a lookup.
#[derive(Debug, Clone, Copy, PartialEq, Eq, Structural)]
pub enum LookupResult {
    /// The DOI is in the index of this source.
    Found(Source),
    /// The DOI is in none of the indexes consulted.
    NotFound,
}

/// Whether the index is there and holds the lowercased DOI `d`.
pub open spec fn index_holds(index: Option<&DoiIndex>, d: Seq<char>) -> bool {
    match index {
        Some(idx) => idx@.dois.contains(d),
        None => false,
    }
}

/// The outcome of looking up the lowercased DOI `d`: in `All` mode Crossref
/// is consulted first, then DataCite; `Datacite` and `Arxiv` consult DataCite
/// only, `Crossref` consults Crossref only.
pub open spec fn lookup_spec(
    d: Seq<char>,
    source: Source,
    crossref: Option<&DoiIndex>,
    datacite: Option<&DoiIndex>,
) -> LookupResult {
    match source {
        Source::All => if index_holds(crossref, d) {
            LookupResult::Found(Source::Crossref)
        } else if index_holds(datacite, d) {
            LookupResult::Found(Source::Datacite)
        } else {
            LookupResult::NotFound
        },
        Source::Crossref => if index_holds(crossref, d) {
            LookupResult::Found(Source::Crossref)
        } else {
            LookupResult::NotFound
        },
        Source::Datacite | Source::Arxiv => if index_holds(datacite, d) {
            LookupResult::Found(Source::Datacite)
        } else {
            LookupResult::NotFound
        },
    }
}

fn holds(index: Option<&DoiIndex>, doi: &str) -> (r: bool)
    ensures
        r == index_holds(index, lower(doi@)),
{
    match index {
        Some(idx) => idx.contains(doi),
        None => false,
    }
}

/// Looks a DOI up, whatever its case, in the indexes that `source` consults.
pub fn lookup_doi(
    doi: &str,
    source: Source,
    crossref: Option<&DoiIndex>,
    datacite: Option<&DoiIndex>,
) -> (r: LookupResult)
    ensures
        r == lookup_spec(lower(doi@), source, crossref, datacite),
{
    match source {
        Source::All => {
            if holds(crossref, doi) {
                LookupResult::Found(Source::Crossref)
            } else if holds(datacite, doi) {
                LookupResult::Found(Source::Datacite)
            } else {
                LookupResult::NotFound
            }
        },
        Source::Crossref => {
            if holds(crossref, doi) {
                LookupResult::Found(Source::Crossref)
            } else {
                LookupResult::NotFound
            }
        },
        Source::Datacite | Source::Arxiv => {
            if holds(datacite, doi) {
                LookupResult::Found(Source::Datacite)
            } else {
                LookupResult::NotFound
            }
        },
    }
}

} // verus!
