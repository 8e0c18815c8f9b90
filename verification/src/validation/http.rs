//! What the HTTP fallback decides. The request itself is made by the program
//! that drives the validation.

use crate::text::joined;
use vstd::prelude::*;

verus! {

/// The resolver that DOIs are checked against.
pub const DOI_RESOLVER: &'static str = "https://doi.org/";

/// The address that is asked for the DOI.
pub open spec fn doi_url_spec(doi: Seq<char>) -> Seq<char> {
    DOI_RESOLVER@ + doi
}

/// The address that is asked, with a HEAD request and without following
/// redirects, to learn whether the DOI resolves.
pub fn doi_url(doi: &str) -> (url: String)
    ensures
        url@ == doi_url_spec(doi@),
{
    joined(DOI_RESOLVER, doi)
}

/// Whether a response with this status shows that the DOI resolves: the
/// status is a success (2xx) or a redirection (3xx).
pub open spec fn status_resolves_spec(status: u16) -> bool {
    200 <= status < 400
}

/// Whether a response with this status shows that the DOI resolves.
pub fn status_resolves(status: u16) -> (r: bool)
    ensures
        r == status_resolves_spec(status),
{
    let is_success = 200 <= status && status < 300;
    let is_redirection = 300 <= status && status < 400;
    is_redirection || is_success
}

/// What became of one request: a record resolves when a response came and
/// its status is a success or a redirection; a request that failed or timed
/// out leaves the record unresolved.
pub fn check_resolves(response_status: Option<u16>) -> (r: bool)
    ensures
        r == match response_status {
            Some(status) => status_resolves_spec(status),
            None => false,
        },
{
    match response_status {
        Some(status) => status_resolves(status),
        None => false,
    }
}

} // verus!
