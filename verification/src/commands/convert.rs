//! The decisions of the `convert` command: the references of a work as flat
//! rows, each with the outcome of the hint filter.

use crate::commands::pipeline::capped_sum;
use crate::common::types::ConvertStats;
use crate::extract::reference::{check_arxiv_hint, has_hint, Reference, ReferenceView};
use vstd::prelude::*;

verus! {

/// One reference of a citing work, flattened.
#[derive(Debug, Clone)]
pub struct FlatReference {
    /// DOI of the citing work.
    pub citing_doi: String,
    /// Position of the reference within the citing work, from 0.
    pub ref_index: u32,
    /// The reference with its recognized fields.
    pub reference: Reference,
    /// Whether the reference passes the hint filter.
    pub has_arxiv_hint: bool,
}

/// The mathematical value of a [`FlatReference`].
pub struct FlatReferenceView {
    pub citing_doi: Seq<char>,
    pub ref_index: u32,
    pub reference: ReferenceView,
    pub has_arxiv_hint: bool,
}

impl DeepView for FlatReference {
    type V = FlatReferenceView;

    open spec fn deep_view(&self) -> FlatReferenceView {
        FlatReferenceView {
            citing_doi: self.citing_doi@,
            ref_index: self.ref_index,
            reference: self.reference.deep_view(),
            has_arxiv_hint: self.has_arxiv_hint,
        }
    }
}

/// The flat row of the reference at position `i`.
pub open spec fn flat_row(doi: Seq<char>, refs: Seq<ReferenceView>, i: int) -> FlatReferenceView {
    FlatReferenceView {
        citing_doi: doi,
        ref_index: i as u32,
        reference: refs[i],
        has_arxiv_hint: has_hint(refs[i]),
    }
}

/// The number of references among the first `n` that pass the hint filter.
pub open spec fn hint_count(refs: Seq<ReferenceView>, n: int) -> nat
    decreases n,
{
    if n <= 0 {
        0
    } else {
        hint_count(refs, n - 1) + if has_hint(refs[n - 1]) {
            1nat
        } else {
            0nat
        }
    }
}

fn option_str(field: &Option<String>) -> (r: Option<&str>)
    ensures
        r.deep_view() == field.deep_view(),
{
    match field {
        Some(t) => Some(t.as_str()),
        None => None,
    }
}

fn copy_field(field: &Option<String>) -> (r: Option<String>)
    ensures
        r.deep_view() == field.deep_view(),
{
    match field {
        Some(t) => Some(t.clone()),
        None => None,
    }
}

/// Flattens the references of the work `doi`: one row for each reference,
/// numbered from 0, with the outcome of the hint filter. The counters of
/// references and of references with a hint grow accordingly. At most
/// `u32::MAX + 1` references can be numbered.
pub fn flatten_references(doi: &str, references: &Vec<Reference>, stats: &mut ConvertStats) -> (rows:
    Vec<FlatReference>)
    requires
        references.len() <= u32::MAX as usize + 1,
    ensures
        rows.deep_view() == Seq::new(
            references@.len(),
            |i: int| flat_row(doi@, references.deep_view(), i),
        ),
        final(stats).total_references == capped_sum(
            old(stats).total_references,
            references@.len(),
        ),
        final(stats).references_with_hint == capped_sum(
            old(stats).references_with_hint,
            hint_count(references.deep_view(), references@.len() as int),
        ),
        final(stats).json_files_processed == old(stats).json_files_processed,
        final(stats).total_records == old(stats).total_records,
{
    let mut rows: Vec<FlatReference> = Vec::new();
    let ghost refs = references.deep_view();
    let mut i: usize = 0;
    while i < references.len()
        invariant
            i <= references.len(),
            references.len() <= u32::MAX as usize + 1,
            refs == references.deep_view(),
            rows.deep_view().len() == i,
            forall|j: int| 0 <= j < i ==> #[trigger] rows.deep_view()[j] == flat_row(doi@, refs, j),
            stats.total_references == capped_sum(old(stats).total_references, i as nat),
            stats.references_with_hint == capped_sum(
                old(stats).references_with_hint,
                hint_count(refs, i as int),
            ),
            stats.json_files_processed == old(stats).json_files_processed,
            stats.total_records == old(stats).total_records,
        decreases references.len() - i,
    {
        let ghost before = rows.deep_view();
        let r = &references[i];
        assert(refs[i as int] == r.deep_view());
        let has_hint = check_arxiv_hint(
            option_str(&r.doi),
            option_str(&r.unstructured),
            option_str(&r.article_title),
            option_str(&r.journal_title),
            option_str(&r.url),
        );
        stats.total_references = stats.total_references.saturating_add(1);
        if has_hint {
            stats.references_with_hint = stats.references_with_hint.saturating_add(1);
        }
        let row = FlatReference {
            citing_doi: doi.to_owned(),
            ref_index: i as u32,
            reference: Reference {
                doi: copy_field(&r.doi),
                unstructured: copy_field(&r.unstructured),
                article_title: copy_field(&r.article_title),
                journal_title: copy_field(&r.journal_title),
                url: copy_field(&r.url),
                doi_asserted_by: copy_field(&r.doi_asserted_by),
                json: r.json.clone(),
            },
            has_arxiv_hint: has_hint,
        };
        assert(row.deep_view() == flat_row(doi@, refs, i as int));
        rows.push(row);
        assert(rows.deep_view() =~= before.push(row.deep_view()));
        i += 1;
    }
    assert(rows.deep_view() =~= Seq::new(
        references@.len(),
        |i: int| flat_row(doi@, references.deep_view(), i),
    ));
    rows
}

} // verus!
