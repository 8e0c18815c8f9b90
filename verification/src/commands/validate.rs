//! The decisions of the `validate` command.

use crate::commands::pipeline::capped_sum;
use crate::common::types::ValidateStats;
use crate::validation::runner::ValidationResults;
use vstd::prelude::*;

verus! {

/// The counters of a validation against DataCite: the records found in the
/// index, the records that resolved and that failed, and the totals. The
/// total of valid records stays at the largest `usize` if it would pass it.
pub fn validate_stats_of(results: &ValidationResults) -> (stats: ValidateStats)
    ensures
        stats.total_records == results.stats.total_records,
        stats.matched_in_datacite == results.stats.datacite_matched,
        stats.resolution_resolved == results.stats.datacite_http_resolved,
        stats.resolution_failed == results.stats.datacite_failed,
        stats.total_valid == capped_sum(
            results.stats.datacite_matched,
            results.stats.datacite_http_resolved as nat,
        ),
        stats.total_failed == results.stats.datacite_failed,
{
    ValidateStats {
        total_records: results.stats.total_records,
        matched_in_datacite: results.stats.datacite_matched,
        resolution_resolved: results.stats.datacite_http_resolved,
        resolution_failed: results.stats.datacite_failed,
        total_valid: results.stats.datacite_matched.saturating_add(
            results.stats.datacite_http_resolved,
        ),
        total_failed: results.stats.datacite_failed,
    }
}

} // verus!
