//! A quick test on the prefix of a DOI, before the full lookup.

use crate::extract::doi::{doi_prefix, doi_prefix_spec};
use crate::index::DoiIndex;
use crate::text::lower;
use vstd::prelude::*;

verus! {

/// Which registries know the prefix of a DOI.
#[derive(Debug, Clone, Copy, PartialEq, Eq, Structural)]
pub enum PrefixMatch {
    /// Neither registry.
    Neither,
    /// Crossref only.
    Crossref,
    /// DataCite only.
    Datacite,
    /// Both registries.
    Both,
}

/// Whether the index is there and holds the prefix `p`, lowercased.
pub open spec fn index_has_prefix(index: Option<&DoiIndex>, p: Seq<char>) -> bool {
    match index {
        Some(idx) => idx@.prefixes.contains(lower(p)),
        None => false,
    }
}

/// Which of the two indexes hold the prefix of the DOI `d`.
pub open spec fn prefix_source_spec(
    d: Seq<char>,
    crossref: Option<&DoiIndex>,
    datacite: Option<&DoiIndex>,
) -> PrefixMatch {
    match doi_prefix_spec(d) {
        Some(p) => {
            let in_crossref = index_has_prefix(crossref, p);
            let in_datacite = index_has_prefix(datacite, p);
            if in_crossref && in_datacite {
                PrefixMatch::Both
            } else if in_crossref {
                PrefixMatch::Crossref
            } else if in_datacite {
                PrefixMatch::Datacite
            } else {
                PrefixMatch::Neither
            }
        },
        None => PrefixMatch::Neither,
    }
}

fn has_prefix_in(index: Option<&DoiIndex>, prefix: &str) -> (r: bool)
    ensures
        r == index_has_prefix(index, prefix@),
{
    match index {
        Some(idx) => idx.has_prefix(prefix),
        None => false,
    }
}

/// Whether the prefix of the DOI is known to one of the indexes given. A DOI
/// without a prefix is known to none.
pub fn has_known_prefix(doi: &str, crossref: Option<&DoiIndex>, datacite: Option<&DoiIndex>) -> (r:
    bool)
    ensures
        r == (prefix_source_spec(doi@, crossref, datacite) != PrefixMatch::Neither),
{
    match doi_prefix(doi) {
        Some(prefix) => {
            has_prefix_in(crossref, prefix.as_str()) || has_prefix_in(datacite, prefix.as_str())
        },
        None => false,
    }
}

/// Which of the indexes given know the prefix of the DOI.
pub fn prefix_source(doi: &str, crossref: Option<&DoiIndex>, datacite: Option<&DoiIndex>) -> (r:
    PrefixMatch)
    ensures
        r == prefix_source_spec(doi@, crossref, datacite),
{
    match doi_prefix(doi) {
        Some(prefix) => {
            let in_crossref = has_prefix_in(crossref, prefix.as_str());
            let in_datacite = has_prefix_in(datacite, prefix.as_str());
            if in_crossref && in_datacite {
                PrefixMatch::Both
            } else if in_crossref {
                PrefixMatch::Crossref
            } else if in_datacite {
                PrefixMatch::Datacite
            } else {
                PrefixMatch::Neither
            }
        },
        None => PrefixMatch::Neither,
    }
}

} // verus!
