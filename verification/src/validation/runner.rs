//! Classifying inverted records: the local lookup, the merge of the HTTP
//! outcomes, and the split of the output by provenance.

use crate::cli::Source;
use crate::commands::pipeline::capped_sum;
use crate::common::types::ARXIV_DOI_LEAD;
use crate::common::vecs::reversed;
use crate::index::DoiIndex;
use crate::streaming::partition_invert::{CitedBy, CitedByView, InvertedEntry, OutputMode};
use crate::text::{chars_of, lower, starts_with, string_of, string_of_range, vec_starts_with};
use crate::validation::lookup::{lookup_doi, lookup_spec, LookupResult};
use vstd::prelude::*;

verus! {

/// One record of the inverted index as the validator sees it.
#[derive(Debug, Clone)]
pub struct CitationRecord {
    /// The DOI of the cited work.
    pub doi: String,
    /// The arXiv identifier of the cited work, when it is an arXiv work.
    pub arxiv_id: Option<String>,
    /// The number of reference occurrences.
    pub reference_count: usize,
    /// The number of distinct citing works.
    pub citation_count: usize,
    /// The citing works.
    pub cited_by: Vec<CitedBy>,
}

/// The mathematical value of a [`CitationRecord`].
pub struct CitationRecordView {
    pub doi: Seq<char>,
    pub arxiv_id: Option<Seq<char>>,
    pub reference_count: usize,
    pub citation_count: usize,
    pub cited_by: Seq<CitedByView>,
}

impl DeepView for CitationRecord {
    type V = CitationRecordView;

    open spec fn deep_view(&self) -> CitationRecordView {
        CitationRecordView {
            doi: self.doi@,
            arxiv_id: self.arxiv_id.deep_view(),
            reference_count: self.reference_count,
            citation_count: self.citation_count,
            cited_by: self.cited_by.deep_view(),
        }
    }
}

/// Counters of a validation run.
#[derive(Debug, Clone, Copy, PartialEq, Eq, Structural)]
pub struct MultiValidateStats {
    /// Records that were read.
    pub total_records: usize,
    /// Records found in the Crossref index.
    pub crossref_matched: usize,
    /// Records found in the DataCite index.
    pub datacite_matched: usize,
    /// Crossref records that resolved over HTTP.
    pub crossref_http_resolved: usize,
    /// DataCite records that resolved over HTTP.
    pub datacite_http_resolved: usize,
    /// Crossref records that failed.
    pub crossref_failed: usize,
    /// DataCite records that failed.
    pub datacite_failed: usize,
}

impl MultiValidateStats {
    /// Counters that are all zero.
    pub open spec fn zero() -> Self {
        MultiValidateStats {
            total_records: 0,
            crossref_matched: 0,
            datacite_matched: 0,
            crossref_http_resolved: 0,
            datacite_http_resolved: 0,
            crossref_failed: 0,
            datacite_failed: 0,
        }
    }

    /// Counters that are all zero.
    pub fn new() -> (s: Self)
        ensures
            s == MultiValidateStats::zero(),
    {
        MultiValidateStats {
            total_records: 0,
            crossref_matched: 0,
            datacite_matched: 0,
            crossref_http_resolved: 0,
            datacite_http_resolved: 0,
            crossref_failed: 0,
            datacite_failed: 0,
        }
    }
}

impl Default for MultiValidateStats {
    fn default() -> (s: Self)
        ensures
            s == MultiValidateStats::zero(),
    {
        MultiValidateStats::new()
    }
}

/// What the local lookup found: the records that an index holds, each with
/// the source whose index holds it, and the records that no index holds.
pub struct LocalLookup {
    /// Records found in an index, with the source of that index.
    pub matched: Vec<(CitationRecord, Source)>,
    /// Records found in no index that was consulted.
    pub unmatched: Vec<CitationRecord>,
    /// The counters after the lookup.
    pub stats: MultiValidateStats,
}

/// The results of a validation run.
pub struct ValidationResults {
    /// Valid records, each with the source that vouches for it.
    pub valid: Vec<(CitationRecord, Source)>,
    /// Records that could not be validated.
    pub failed: Vec<CitationRecord>,
    /// The counters of the run.
    pub stats: MultiValidateStats,
}

// ---------------------------------------------------------------------------
// The local lookup
// ---------------------------------------------------------------------------

/// The records that an index holds, in order, each with the source found.
pub open spec fn matched_of(
    records: Seq<CitationRecordView>,
    source: Source,
    crossref: Option<&DoiIndex>,
    datacite: Option<&DoiIndex>,
) -> Seq<(CitationRecordView, Source)>
    decreases records.len(),
{
    if records.len() == 0 {
        Seq::empty()
    } else {
        let rest = matched_of(records.drop_last(), source, crossref, datacite);
        match lookup_spec(lower(records.last().doi), source, crossref, datacite) {
            LookupResult::Found(s) => rest.push((records.last(), s)),
            LookupResult::NotFound => rest,
        }
    }
}

/// The records that no index holds, in order.
pub open spec fn unmatched_of(
    records: Seq<CitationRecordView>,
    source: Source,
    crossref: Option<&DoiIndex>,
    datacite: Option<&DoiIndex>,
) -> Seq<CitationRecordView>
    decreases records.len(),
{
    if records.len() == 0 {
        Seq::empty()
    } else {
        let rest = unmatched_of(records.drop_last(), source, crossref, datacite);
        match lookup_spec(lower(records.last().doi), source, crossref, datacite) {
            LookupResult::Found(s) => rest,
            LookupResult::NotFound => rest.push(records.last()),
        }
    }
}

/// The number of pairs with the source `s`.
pub open spec fn count_source(pairs: Seq<(CitationRecordView, Source)>, s: Source) -> nat
    decreases pairs.len(),
{
    if pairs.len() == 0 {
        0
    } else {
        count_source(pairs.drop_last(), s) + if pairs.last().1 == s {
            1nat
        } else {
            0nat
        }
    }
}

/// The counters after the local lookup of `total` records gave `matched`.
pub open spec fn lookup_stats(
    total: nat,
    matched: Seq<(CitationRecordView, Source)>,
) -> MultiValidateStats {
    MultiValidateStats {
        total_records: total as usize,
        crossref_matched: count_source(matched, Source::Crossref) as usize,
        datacite_matched: count_source(matched, Source::Datacite) as usize,
        crossref_http_resolved: 0,
        datacite_http_resolved: 0,
        crossref_failed: 0,
        datacite_failed: 0,
    }
}

/// A count of pairs is at most their number.
pub proof fn lemma_count_source_bound(pairs: Seq<(CitationRecordView, Source)>, s: Source)
    ensures
        count_source(pairs, s) <= pairs.len(),
    decreases pairs.len(),
{
    if pairs.len() > 0 {
        lemma_count_source_bound(pairs.drop_last(), s);
    }
}

/// Every record is matched or unmatched, and none is both.
pub proof fn lemma_lookup_partitions(
    records: Seq<CitationRecordView>,
    source: Source,
    crossref: Option<&DoiIndex>,
    datacite: Option<&DoiIndex>,
)
    ensures
        matched_of(records, source, crossref, datacite).len() + unmatched_of(
            records,
            source,
            crossref,
            datacite,
        ).len() == records.len(),
    decreases records.len(),
{
    if records.len() > 0 {
        lemma_lookup_partitions(records.drop_last(), source, crossref, datacite);
    }
}

/// Looks each record up in the indexes that the source consults.
/// A record that an index holds is matched, with the source of that index;
/// the others are unmatched.
pub fn lookup_records(
    records: Vec<CitationRecord>,
    source: Source,
    crossref: Option<&DoiIndex>,
    datacite: Option<&DoiIndex>,
) -> (r: LocalLookup)
    ensures
        r.matched.deep_view() == matched_of(records.deep_view(), source, crossref, datacite),
        r.unmatched.deep_view() == unmatched_of(records.deep_view(), source, crossref, datacite),
        r.stats == lookup_stats(records@.len(), r.matched.deep_view()),
        r.stats.total_records == r.matched@.len() + r.unmatched@.len(),
{
    let ghost all = records.deep_view();
    let n = records.len();
    let mut rev = reversed(records);
    let mut matched: Vec<(CitationRecord, Source)> = Vec::new();
    let mut unmatched: Vec<CitationRecord> = Vec::new();
    let mut stats = MultiValidateStats::new();
    let ghost done: Seq<CitationRecordView> = Seq::empty();
    assert(matched.deep_view() =~= Seq::<(CitationRecordView, Source)>::empty());
    assert(unmatched.deep_view() =~= Seq::<CitationRecordView>::empty());
    assert(done + rev.deep_view().reverse() =~= all);
    while rev.len() > 0
        invariant
            done + rev.deep_view().reverse() == all,
            all.len() == n,
            matched.deep_view() == matched_of(done, source, crossref, datacite),
            unmatched.deep_view() == unmatched_of(done, source, crossref, datacite),
            stats == lookup_stats(done.len(), matched.deep_view()),
            matched@.len() + unmatched@.len() == done.len(),
        decreases rev.len(),
    {
        let ghost rb = rev.deep_view();
        let ghost mb = matched.deep_view();
        let ghost ub = unmatched.deep_view();
        let record = rev.pop().unwrap();
        let ghost rv = record.deep_view();
        proof {
            assert(rev.deep_view() =~= rb.drop_last());
            assert(rb.reverse() =~= seq![rv] + rev.deep_view().reverse());
            let next = done.push(rv);
            assert(next.drop_last() =~= done);
            assert(next + rev.deep_view().reverse() =~= done + rb.reverse());
            lemma_count_source_bound(mb, Source::Crossref);
            lemma_count_source_bound(mb, Source::Datacite);
            done = next;
        }
        stats.total_records = stats.total_records + 1;
        match lookup_doi(record.doi.as_str(), source, crossref, datacite) {
            LookupResult::Found(found) => {
                match found {
                    Source::Crossref => {
                        stats.crossref_matched = stats.crossref_matched + 1;
                    },
                    Source::Datacite => {
                        stats.datacite_matched = stats.datacite_matched + 1;
                    },
                    _ => {},
                }
                matched.push((record, found));
                proof {
                    assert(matched.deep_view() =~= mb.push((rv, found)));
                    assert(matched.deep_view().drop_last() =~= mb);
                }
            },
            LookupResult::NotFound => {
                unmatched.push(record);
                assert(unmatched.deep_view() =~= ub.push(rv));
            },
        }
    }
    assert(rev.deep_view().reverse() =~= Seq::<CitationRecordView>::empty());
    assert(done =~= all);
    LocalLookup { matched, unmatched, stats }
}

// ---------------------------------------------------------------------------
// The HTTP outcomes
// ---------------------------------------------------------------------------

/// Whether the HTTP fallback is to be run: it is enabled and a record is
/// unmatched.
pub fn needs_http_fallback(http_fallback: bool, unmatched: &Vec<CitationRecord>) -> (r: bool)
    ensures
        r == (http_fallback && unmatched@.len() > 0),
{
    http_fallback && unmatched.len() > 0
}

/// The records of `outcomes` that resolved, each with the source asked for.
pub open spec fn resolved_of(outcomes: Seq<(CitationRecordView, bool)>, source: Source) -> Seq<
    (CitationRecordView, Source),
>
    decreases outcomes.len(),
{
    if outcomes.len() == 0 {
        Seq::empty()
    } else {
        let rest = resolved_of(outcomes.drop_last(), source);
        if outcomes.last().1 {
            rest.push((outcomes.last().0, source))
        } else {
            rest
        }
    }
}

/// The records of `outcomes` that did not resolve.
pub open spec fn unresolved_of(outcomes: Seq<(CitationRecordView, bool)>) -> Seq<
    CitationRecordView,
>
    decreases outcomes.len(),
{
    if outcomes.len() == 0 {
        Seq::empty()
    } else {
        let rest = unresolved_of(outcomes.drop_last());
        if outcomes.last().1 {
            rest
        } else {
            rest.push(outcomes.last().0)
        }
    }
}

/// The counters after `resolved` more records resolved over HTTP and
/// `failed` more records failed, for the source asked for: resolutions count
/// for Crossref when Crossref was asked for and for DataCite otherwise; so
/// do failures. A counter that would pass the largest `usize` stays there.
pub open spec fn concluded_stats(
    before: MultiValidateStats,
    source: Source,
    resolved: nat,
    failed: nat,
) -> MultiValidateStats {
    if source == Source::Crossref {
        MultiValidateStats {
            crossref_http_resolved: capped_sum(before.crossref_http_resolved, resolved),
            crossref_failed: capped_sum(before.crossref_failed, failed),
            ..before
        }
    } else {
        MultiValidateStats {
            datacite_http_resolved: capped_sum(before.datacite_http_resolved, resolved),
            datacite_failed: capped_sum(before.datacite_failed, failed),
            ..before
        }
    }
}

/// Resolved and unresolved outcomes are together all outcomes.
pub proof fn lemma_outcomes_partition(outcomes: Seq<(CitationRecordView, bool)>, source: Source)
    ensures
        resolved_of(outcomes, source).len() + unresolved_of(outcomes).len() == outcomes.len(),
    decreases outcomes.len(),
{
    if outcomes.len() > 0 {
        lemma_outcomes_partition(outcomes.drop_last(), source);
    }
}

/// Concludes with the fallback: merges the outcomes of the HTTP requests,
/// given in the order in which they completed. A record that resolved is
/// valid, with the source that was asked for; the others have failed.
pub fn conclude_with_http(
    matched: Vec<(CitationRecord, Source)>,
    stats: MultiValidateStats,
    outcomes: Vec<(CitationRecord, bool)>,
    source: Source,
) -> (r: ValidationResults)
    ensures
        r.valid.deep_view() == matched.deep_view() + resolved_of(outcomes.deep_view(), source),
        r.failed.deep_view() == unresolved_of(outcomes.deep_view()),
        r.stats == concluded_stats(
            stats,
            source,
            resolved_of(outcomes.deep_view(), source).len(),
            unresolved_of(outcomes.deep_view()).len(),
        ),
{
    let ghost all = outcomes.deep_view();
    let ghost base = matched.deep_view();
    let count = outcomes.len();
    let mut rev = reversed(outcomes);
    let mut valid = matched;
    let mut failed: Vec<CitationRecord> = Vec::new();
    let mut stats = stats;
    let ghost start = stats;
    let ghost done: Seq<(CitationRecordView, bool)> = Seq::empty();
    assert(failed.deep_view() =~= Seq::<CitationRecordView>::empty());
    assert(done + rev.deep_view().reverse() =~= all);
    assert(valid.deep_view() =~= base + resolved_of(done, source));
    let is_crossref = match source {
        Source::Crossref => true,
        _ => false,
    };
    assert(all.len() == count);
    while rev.len() > 0
        invariant
            done + rev.deep_view().reverse() == all,
            is_crossref == (source == Source::Crossref),
            all.len() <= usize::MAX,
            valid.deep_view() == base + resolved_of(done, source),
            failed.deep_view() == unresolved_of(done),
            stats.total_records == start.total_records,
            stats.crossref_matched == start.crossref_matched,
            stats.datacite_matched == start.datacite_matched,
            is_crossref ==> {
                &&& stats.crossref_http_resolved == capped_sum(
                    start.crossref_http_resolved,
                    resolved_of(done, source).len(),
                )
                &&& stats.crossref_failed == capped_sum(
                    start.crossref_failed,
                    unresolved_of(done).len(),
                )
                &&& stats.datacite_http_resolved == start.datacite_http_resolved
                &&& stats.datacite_failed == start.datacite_failed
            },
            !is_crossref ==> {
                &&& stats.datacite_http_resolved == capped_sum(
                    start.datacite_http_resolved,
                    resolved_of(done, source).len(),
                )
                &&& stats.datacite_failed == capped_sum(
                    start.datacite_failed,
                    unresolved_of(done).len(),
                )
                &&& stats.crossref_http_resolved == start.crossref_http_resolved
                &&& stats.crossref_failed == start.crossref_failed
            },
            resolved_of(done, source).len() + unresolved_of(done).len() == done.len(),
            done.len() + rev@.len() == all.len(),
        decreases rev.len(),
    {
        let ghost rb = rev.deep_view();
        let ghost vb = valid.deep_view();
        let ghost fb = failed.deep_view();
        let (record, resolves) = rev.pop().unwrap();
        let ghost rv = record.deep_view();
        let ghost next = done.push((rv, resolves));
        proof {
            assert(rev.deep_view() =~= rb.drop_last());
            assert(rb.last() == (rv, resolves));
            assert(rb.reverse() =~= seq![(rv, resolves)] + rev.deep_view().reverse());
            assert(next.drop_last() =~= done);
            assert(next + rev.deep_view().reverse() =~= done + rb.reverse());
            assert(done.len() < all.len());
        }
        if resolves {
            if is_crossref {
                stats.crossref_http_resolved = stats.crossref_http_resolved.saturating_add(1);
            } else {
                stats.datacite_http_resolved = stats.datacite_http_resolved.saturating_add(1);
            }
            valid.push((record, source));
            assert(valid.deep_view() =~= vb.push((rv, source)));
            assert(valid.deep_view() =~= base + resolved_of(next, source));
        } else {
            if is_crossref {
                stats.crossref_failed = stats.crossref_failed.saturating_add(1);
            } else {
                stats.datacite_failed = stats.datacite_failed.saturating_add(1);
            }
            failed.push(record);
            assert(failed.deep_view() =~= fb.push(rv));
        }
        proof {
            done = next;
        }
    }
    assert(rev.deep_view().reverse() =~= Seq::<(CitationRecordView, bool)>::empty());
    assert(done =~= all);
    ValidationResults { valid, failed, stats }
}

/// Concludes without the fallback: every unmatched record has failed.
pub fn conclude_without_http(local: LocalLookup, source: Source) -> (r: ValidationResults)
    ensures
        r.valid.deep_view() == local.matched.deep_view(),
        r.failed.deep_view() == local.unmatched.deep_view(),
        r.stats == concluded_stats(local.stats, source, 0, local.unmatched@.len()),
{
    let mut stats = local.stats;
    let count = local.unmatched.len();
    match source {
        Source::Crossref => {
            stats.crossref_failed = stats.crossref_failed.saturating_add(count);
        },
        _ => {
            stats.datacite_failed = stats.datacite_failed.saturating_add(count);
        },
    }
    ValidationResults { valid: local.matched, failed: local.unmatched, stats }
}

// ---------------------------------------------------------------------------
// Output shapes
// ---------------------------------------------------------------------------

/// The record that an inverted entry gives: in arXiv mode its DOI is the
/// DOI built from the identifier and the identifier is kept beside it;
/// otherwise its DOI is the identifier.
pub open spec fn record_of_spec(
    e: crate::streaming::partition_invert::InvertedEntryView,
    mode: OutputMode,
) -> CitationRecordView {
    CitationRecordView {
        doi: if mode == OutputMode::Arxiv {
            crate::common::types::arxiv_doi_spec(e.cited_id)
        } else {
            e.cited_id
        },
        arxiv_id: if mode == OutputMode::Arxiv {
            Some(e.cited_id)
        } else {
            None
        },
        reference_count: e.reference_count,
        citation_count: e.citation_count,
        cited_by: e.cited_by,
    }
}

/// The record that an inverted entry gives.
pub fn record_of(entry: InvertedEntry, mode: OutputMode) -> (r: CitationRecord)
    ensures
        r.deep_view() == record_of_spec(entry.deep_view(), mode),
{
    match mode {
        OutputMode::Arxiv => {
            let doi = crate::common::types::arxiv_doi_for(entry.cited_id.as_str());
            CitationRecord {
                doi,
                arxiv_id: Some(entry.cited_id),
                reference_count: entry.reference_count,
                citation_count: entry.citation_count,
                cited_by: entry.cited_by,
            }
        },
        OutputMode::Generic => CitationRecord {
            doi: entry.cited_id,
            arxiv_id: None,
            reference_count: entry.reference_count,
            citation_count: entry.citation_count,
            cited_by: entry.cited_by,
        },
    }
}

/// The arXiv identifier that is written for a record: the one it carries;
/// failing that, its DOI without the lead `10.48550/arXiv.` (also spelled
/// `10.48550/arxiv.`); failing that, its DOI.
pub open spec fn arxiv_id_spec(r: CitationRecordView) -> Seq<char> {
    match r.arxiv_id {
        Some(id) => id,
        None => if starts_with(r.doi, ARXIV_DOI_LEAD@) {
            r.doi.subrange(ARXIV_DOI_LEAD@.len() as int, r.doi.len() as int)
        } else if starts_with(r.doi, "10.48550/arxiv."@) {
            r.doi.subrange("10.48550/arxiv."@.len() as int, r.doi.len() as int)
        } else {
            r.doi
        },
    }
}

/// The arXiv identifier that is written for a record.
pub fn arxiv_id_of(record: &CitationRecord) -> (id: String)
    ensures
        id@ == arxiv_id_spec(record.deep_view()),
{
    match &record.arxiv_id {
        Some(id) => id.clone(),
        None => {
            let v = chars_of(record.doi.as_str());
            let lead = chars_of(ARXIV_DOI_LEAD);
            let lead_lower = chars_of("10.48550/arxiv.");
            if vec_starts_with(&v, &lead) {
                string_of_range(&v, lead.len(), v.len())
            } else if vec_starts_with(&v, &lead_lower) {
                string_of_range(&v, lead_lower.len(), v.len())
            } else {
                string_of(&v)
            }
        },
    }
}

// ---------------------------------------------------------------------------
// The split by provenance
// ---------------------------------------------------------------------------

/// The citing works of the asserted kind (`asserted` true) or of the mined
/// kind (`asserted` false), in order.
pub open spec fn kept_by_provenance(cited_by: Seq<CitedByView>, asserted: bool) -> Seq<
    CitedByView,
>
    decreases cited_by.len(),
{
    if cited_by.len() == 0 {
        Seq::empty()
    } else {
        let rest = kept_by_provenance(cited_by.drop_last(), asserted);
        if cited_by.last().provenance.asserted() == asserted {
            rest.push(cited_by.last())
        } else {
            rest
        }
    }
}

/// The record of one split file: the citing works of the kind asked for,
/// with the citation count taken from their number; no record when there is
/// none of that kind.
pub open spec fn split_record_spec(r: CitationRecordView, asserted: bool) -> Option<
    CitationRecordView,
> {
    let kept = kept_by_provenance(r.cited_by, asserted);
    if kept.len() == 0 {
        None
    } else {
        Some(
            CitationRecordView {
                doi: r.doi,
                arxiv_id: r.arxiv_id,
                reference_count: r.reference_count,
                citation_count: kept.len() as usize,
                cited_by: kept,
            },
        )
    }
}

/// The records of one split file, in the order of the combined file.
pub open spec fn split_records_spec(records: Seq<CitationRecordView>, asserted: bool) -> Seq<
    CitationRecordView,
>
    decreases records.len(),
{
    if records.len() == 0 {
        Seq::empty()
    } else {
        let rest = split_records_spec(records.drop_last(), asserted);
        match split_record_spec(records.last(), asserted) {
            Some(r) => rest.push(r),
            None => rest,
        }
    }
}

/// The two kinds split a list of citing works: each citing work is of one
/// kind and of one only, and the two parts hold together what the list
/// holds, each citing work as often.
pub proof fn lemma_split_is_partition(cited_by: Seq<CitedByView>)
    ensures
        kept_by_provenance(cited_by, true).to_multiset().add(
            kept_by_provenance(cited_by, false).to_multiset(),
        ) == cited_by.to_multiset(),
        forall|i: int|
            0 <= i < kept_by_provenance(cited_by, true).len() ==> (#[trigger] kept_by_provenance(
                cited_by,
                true,
            )[i]).provenance.asserted(),
        forall|i: int|
            0 <= i < kept_by_provenance(cited_by, false).len() ==> !(#[trigger] kept_by_provenance(
                cited_by,
                false,
            )[i]).provenance.asserted(),
        kept_by_provenance(cited_by, true).len() + kept_by_provenance(cited_by, false).len()
            == cited_by.len(),
    decreases cited_by.len(),
{
    broadcast use {
        vstd::seq_lib::group_to_multiset_ensures,
        vstd::multiset::group_multiset_axioms,
    };
    if cited_by.len() == 0 {
        assert(kept_by_provenance(cited_by, true).to_multiset().add(
            kept_by_provenance(cited_by, false).to_multiset(),
        ) =~= cited_by.to_multiset());
    } else {
        let before = cited_by.drop_last();
        let c = cited_by.last();
        lemma_split_is_partition(before);
        assert(before.push(c) =~= cited_by);
        vstd::seq_lib::to_multiset_build(before, c);
        vstd::seq_lib::to_multiset_build(kept_by_provenance(before, true), c);
        vstd::seq_lib::to_multiset_build(kept_by_provenance(before, false), c);
        assert(kept_by_provenance(cited_by, true).to_multiset().add(
            kept_by_provenance(cited_by, false).to_multiset(),
        ) =~= cited_by.to_multiset());
    }
}

/// A record that has a citing work is in the asserted file or in the mined
/// file, and what the two files list for it is what the combined file lists.
pub proof fn lemma_split_covers(r: CitationRecordView)
    ensures
        r.cited_by.len() > 0 ==> split_record_spec(r, true) is Some || split_record_spec(
            r,
            false,
        ) is Some,
        split_record_spec(r, true) is Some ==> split_record_spec(r, true)->0.doi == r.doi,
        split_record_spec(r, false) is Some ==> split_record_spec(r, false)->0.doi == r.doi,
        kept_by_provenance(r.cited_by, true).to_multiset().add(
            kept_by_provenance(r.cited_by, false).to_multiset(),
        ) == r.cited_by.to_multiset(),
{
    lemma_split_is_partition(r.cited_by);
}

/// The citing works of one kind: the asserted ones (publisher or crossref)
/// when `keep_asserted` is set, the mined ones otherwise.
pub fn filter_cited_by_by_provenance(cited_by: &Vec<CitedBy>, keep_asserted: bool) -> (kept: Vec<
    CitedBy,
>)
    ensures
        kept.deep_view() == kept_by_provenance(cited_by.deep_view(), keep_asserted),
{
    let mut kept: Vec<CitedBy> = Vec::new();
    let ghost all = cited_by.deep_view();
    let mut i: usize = 0;
    assert(all.take(0) =~= Seq::<CitedByView>::empty());
    assert(kept.deep_view() =~= Seq::<CitedByView>::empty());
    while i < cited_by.len()
        invariant
            i <= cited_by.len(),
            all == cited_by.deep_view(),
            kept.deep_view() == kept_by_provenance(all.take(i as int), keep_asserted),
        decreases cited_by.len() - i,
    {
        let ghost before = kept.deep_view();
        assert(all.take(i + 1).drop_last() =~= all.take(i as int));
        assert(all.take(i + 1).last() == cited_by@[i as int].deep_view());
        if cited_by[i].provenance.is_asserted() == keep_asserted {
            let c = cited_by[i].duplicate();
            kept.push(c);
            assert(kept.deep_view() =~= before.push(c.deep_view()));
        }
        i += 1;
    }
    assert(all.take(cited_by.len() as int) =~= all);
    kept
}

/// The record of one split file for `record`, if it has one.
pub fn split_record(record: &CitationRecord, keep_asserted: bool) -> (r: Option<CitationRecord>)
    ensures
        r.deep_view() == split_record_spec(record.deep_view(), keep_asserted),
{
    let kept = filter_cited_by_by_provenance(&record.cited_by, keep_asserted);
    if kept.len() == 0 {
        None
    } else {
        Some(
            CitationRecord {
                doi: record.doi.clone(),
                arxiv_id: match &record.arxiv_id {
                    Some(id) => Some(id.clone()),
                    None => None,
                },
                reference_count: record.reference_count,
                citation_count: kept.len(),
                cited_by: kept,
            },
        )
    }
}

/// The records of one split file: for each record its part of the kind asked
/// for, records without such a part left out.
pub fn split_records(records: &Vec<CitationRecord>, keep_asserted: bool) -> (out: Vec<
    CitationRecord,
>)
    ensures
        out.deep_view() == split_records_spec(records.deep_view(), keep_asserted),
{
    let mut out: Vec<CitationRecord> = Vec::new();
    let ghost all = records.deep_view();
    let mut i: usize = 0;
    assert(all.take(0) =~= Seq::<CitationRecordView>::empty());
    assert(out.deep_view() =~= Seq::<CitationRecordView>::empty());
    while i < records.len()
        invariant
            i <= records.len(),
            all == records.deep_view(),
            out.deep_view() == split_records_spec(all.take(i as int), keep_asserted),
        decreases records.len() - i,
    {
        let ghost before = out.deep_view();
        assert(all.take(i + 1).drop_last() =~= all.take(i as int));
        assert(all.take(i + 1).last() == records@[i as int].deep_view());
        match split_record(&records[i], keep_asserted) {
            Some(r) => {
                out.push(r);
                assert(out.deep_view() =~= before.push(r.deep_view()));
            },
            None => {},
        }
        i += 1;
    }
    assert(all.take(records.len() as int) =~= all);
    out
}

/// The positions of the valid records that Crossref vouches for
/// (`crossref` true), or of the others (`crossref` false), in order.
pub open spec fn positions_of(valid: Seq<(CitationRecordView, Source)>, crossref: bool) -> Seq<
    usize,
>
    decreases valid.len(),
{
    if valid.len() == 0 {
        Seq::empty()
    } else {
        let rest = positions_of(valid.drop_last(), crossref);
        if (valid.last().1 == Source::Crossref) == crossref {
            rest.push((valid.len() - 1) as usize)
        } else {
            rest
        }
    }
}

/// Splits the valid records by source: the positions of the records that
/// Crossref vouches for, and the positions of all others.
pub fn partition_by_source(valid: &Vec<(CitationRecord, Source)>) -> (r: (Vec<usize>, Vec<usize>))
    ensures
        r.0@ == positions_of(valid.deep_view(), true),
        r.1@ == positions_of(valid.deep_view(), false),
{
    let mut crossref: Vec<usize> = Vec::new();
    let mut others: Vec<usize> = Vec::new();
    let ghost all = valid.deep_view();
    let mut i: usize = 0;
    assert(all.take(0) =~= Seq::<(CitationRecordView, Source)>::empty());
    while i < valid.len()
        invariant
            i <= valid.len(),
            all == valid.deep_view(),
            crossref@ == positions_of(all.take(i as int), true),
            others@ == positions_of(all.take(i as int), false),
        decreases valid.len() - i,
    {
        assert(all.take(i + 1).drop_last() =~= all.take(i as int));
        assert(all.take(i + 1).last() == valid@[i as int].deep_view());
        let is_crossref = match valid[i].1 {
            Source::Crossref => true,
            _ => false,
        };
        if is_crossref {
            crossref.push(i);
        } else {
            others.push(i);
        }
        i += 1;
    }
    assert(all.take(valid.len() as int) =~= all);
    (crossref, others)
}

} // verus!
