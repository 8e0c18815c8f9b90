//! The decisions of the `invert` command: the shape in which the inverted
//! index of arXiv works is written out.

use crate::commands::pipeline::capped_sum;
use crate::common::types::{arxiv_doi_for, arxiv_doi_spec};
use crate::streaming::partition_invert::{
    index_in, lemma_index_in, CitedBy, CitedByView, InvertStats, InvertedEntry, InvertedEntryView,
};
use crate::text::str_eq;
use vstd::prelude::*;

verus! {

/// One reference of a citing work to a cited work.
#[derive(Debug, Clone)]
pub struct ReferenceMatch {
    /// The substring that produced the cited identifier.
    pub raw_match: String,
    /// The reference entry, serialized.
    pub reference: String,
}

/// The mathematical value of a [`ReferenceMatch`].
pub struct ReferenceMatchView {
    pub raw_match: Seq<char>,
    pub reference: Seq<char>,
}

impl DeepView for ReferenceMatch {
    type V = ReferenceMatchView;

    open spec fn deep_view(&self) -> ReferenceMatchView {
        ReferenceMatchView { raw_match: self.raw_match@, reference: self.reference@ }
    }
}

/// A citing work with all its references to one cited work.
#[derive(Debug, Clone)]
pub struct CitingWork {
    /// DOI of the citing work.
    pub doi: String,
    /// Its references to the cited work.
    pub matches: Vec<ReferenceMatch>,
}

/// The mathematical value of a [`CitingWork`].
pub struct CitingWorkView {
    pub doi: Seq<char>,
    pub matches: Seq<ReferenceMatchView>,
}

impl DeepView for CitingWork {
    type V = CitingWorkView;

    open spec fn deep_view(&self) -> CitingWorkView {
        CitingWorkView { doi: self.doi@, matches: self.matches.deep_view() }
    }
}

/// An arXiv work with all its citations.
#[derive(Debug, Clone)]
pub struct ArxivCitations {
    /// `10.48550/arXiv.` followed by the identifier.
    pub arxiv_doi: String,
    /// The arXiv identifier.
    pub arxiv_id: String,
    /// The number of reference occurrences.
    pub reference_count: usize,
    /// The number of distinct citing works.
    pub citation_count: usize,
    /// The citing works, each with its references.
    pub cited_by: Vec<CitingWork>,
}

/// The mathematical value of an [`ArxivCitations`].
pub struct ArxivCitationsView {
    pub arxiv_doi: Seq<char>,
    pub arxiv_id: Seq<char>,
    pub reference_count: usize,
    pub citation_count: usize,
    pub cited_by: Seq<CitingWorkView>,
}

impl DeepView for ArxivCitations {
    type V = ArxivCitationsView;

    open spec fn deep_view(&self) -> ArxivCitationsView {
        ArxivCitationsView {
            arxiv_doi: self.arxiv_doi@,
            arxiv_id: self.arxiv_id@,
            reference_count: self.reference_count,
            citation_count: self.citation_count,
            cited_by: self.cited_by.deep_view(),
        }
    }
}

/// An arXiv work with its citations as they were read back: each citing
/// work is kept as serialized.
#[derive(Debug, Clone)]
pub struct ArxivCitationsSimple {
    pub arxiv_doi: String,
    pub arxiv_id: String,
    pub reference_count: usize,
    pub citation_count: usize,
    pub cited_by: Vec<String>,
}

/// The DOIs of the citing works.
pub open spec fn work_dois(works: Seq<CitingWorkView>) -> Seq<Seq<char>> {
    Seq::new(works.len(), |i: int| works[i].doi)
}

/// The reference that a descriptor stands for.
pub open spec fn as_reference_match(c: CitedByView) -> ReferenceMatchView {
    ReferenceMatchView { raw_match: c.raw_match, reference: c.reference }
}

/// The citing works after the descriptor `c` is taken in: its reference
/// joins the references of its citing work, which is appended if it is new.
pub open spec fn add_reference(works: Seq<CitingWorkView>, c: CitedByView) -> Seq<CitingWorkView> {
    let i = index_in(work_dois(works), c.doi);
    if i < 0 {
        works.push(CitingWorkView { doi: c.doi, matches: seq![as_reference_match(c)] })
    } else {
        works.update(
            i,
            CitingWorkView { doi: works[i].doi, matches: works[i].matches.push(as_reference_match(c)) },
        )
    }
}

/// The descriptors gathered by citing work, in first-seen order.
pub open spec fn gathered(cited_by: Seq<CitedByView>) -> Seq<CitingWorkView>
    decreases cited_by.len(),
{
    if cited_by.len() == 0 {
        Seq::empty()
    } else {
        add_reference(gathered(cited_by.drop_last()), cited_by.last())
    }
}

/// The arXiv citations that an inverted entry gives.
pub open spec fn arxiv_citations_spec(e: InvertedEntryView) -> ArxivCitationsView {
    ArxivCitationsView {
        arxiv_doi: arxiv_doi_spec(e.cited_id),
        arxiv_id: e.cited_id,
        reference_count: e.reference_count,
        citation_count: e.citation_count,
        cited_by: gathered(e.cited_by),
    }
}

fn find_work(works: &Vec<CitingWork>, doi: &str) -> (r: Option<usize>)
    ensures
        match r {
            Some(i) => index_in(work_dois(works.deep_view()), doi@) == i && i < works@.len(),
            None => index_in(work_dois(works.deep_view()), doi@) == -1,
        },
{
    let ghost keys = work_dois(works.deep_view());
    let mut i: usize = 0;
    while i < works.len()
        invariant
            i <= works.len(),
            keys == work_dois(works.deep_view()),
            forall|j: int| 0 <= j < i ==> #[trigger] keys[j] != doi@,
        decreases works.len() - i,
    {
        assert(keys[i as int] == works@[i as int].doi@);
        if str_eq(works[i].doi.as_str(), doi) {
            proof {
                lemma_index_in(keys, doi@);
            }
            return Some(i);
        }
        i += 1;
    }
    proof {
        lemma_index_in(keys, doi@);
    }
    None
}

/// Gathers the descriptors of an inverted entry by citing work: each citing
/// work stands once, in first-seen order, with its references in order.
pub fn build_cited_by(cited_by: &Vec<CitedBy>) -> (works: Vec<CitingWork>)
    ensures
        works.deep_view() == gathered(cited_by.deep_view()),
{
    let mut works: Vec<CitingWork> = Vec::new();
    let ghost all = cited_by.deep_view();
    let mut i: usize = 0;
    assert(all.take(0) =~= Seq::<CitedByView>::empty());
    assert(works.deep_view() =~= Seq::<CitingWorkView>::empty());
    while i < cited_by.len()
        invariant
            i <= cited_by.len(),
            all == cited_by.deep_view(),
            works.deep_view() == gathered(all.take(i as int)),
        decreases cited_by.len() - i,
    {
        let ghost before = works.deep_view();
        let c = &cited_by[i];
        let ghost cv = c.deep_view();
        proof {
            assert(all.take(i + 1).drop_last() =~= all.take(i as int));
            assert(all.take(i + 1).last() == cv);
        }
        let m = ReferenceMatch { raw_match: c.raw_match.clone(), reference: c.reference.clone() };
        match find_work(&works, c.doi.as_str()) {
            Some(w) => {
                let ghost mb = works@[w as int].matches.deep_view();
                works[w].matches.push(m);
                proof {
                    assert(works@[w as int].matches.deep_view() =~= mb.push(
                        as_reference_match(cv),
                    ));
                    assert(works.deep_view() =~= add_reference(before, cv));
                }
            },
            None => {
                let mut matches: Vec<ReferenceMatch> = Vec::new();
                matches.push(m);
                assert(matches.deep_view() =~= seq![as_reference_match(cv)]);
                works.push(CitingWork { doi: c.doi.clone(), matches });
                assert(works.deep_view() =~= add_reference(before, cv));
            },
        }
        i += 1;
    }
    assert(all.take(cited_by.len() as int) =~= all);
    works
}

/// The arXiv citations that an inverted entry gives: its identifier, the
/// DOI built from it, its counts, and its citing works gathered by DOI.
pub fn arxiv_citations_of(entry: &InvertedEntry) -> (r: ArxivCitations)
    ensures
        r.deep_view() == arxiv_citations_spec(entry.deep_view()),
{
    ArxivCitations {
        arxiv_doi: arxiv_doi_for(entry.cited_id.as_str()),
        arxiv_id: entry.cited_id.clone(),
        reference_count: entry.reference_count,
        citation_count: entry.citation_count,
        cited_by: build_cited_by(&entry.cited_by),
    }
}

/// The sum of the citation counts, or the largest `usize` when it does not
/// fit.
pub open spec fn total_citations_spec(entries: Seq<InvertedEntryView>) -> usize
    decreases entries.len(),
{
    if entries.len() == 0 {
        0
    } else {
        capped_sum(
            total_citations_spec(entries.drop_last()),
            entries.last().citation_count as nat,
        )
    }
}

/// The counters of an inversion: the partitions that were inverted, the
/// number of cited works, and the sum of their citation counts.
pub fn invert_stats_of(partitions: usize, entries: &Vec<InvertedEntry>) -> (stats: InvertStats)
    ensures
        stats.partitions_processed == partitions,
        stats.unique_arxiv_works == entries@.len(),
        stats.total_citations == total_citations_spec(entries.deep_view()),
{
    let ghost all = entries.deep_view();
    let mut total: usize = 0;
    let mut i: usize = 0;
    assert(all.take(0) =~= Seq::<InvertedEntryView>::empty());
    while i < entries.len()
        invariant
            i <= entries.len(),
            all == entries.deep_view(),
            total == total_citations_spec(all.take(i as int)),
        decreases entries.len() - i,
    {
        assert(all.take(i + 1).drop_last() =~= all.take(i as int));
        assert(all.take(i + 1).last() == entries@[i as int].deep_view());
        total = total.saturating_add(entries[i].citation_count);
        i += 1;
    }
    assert(all.take(entries.len() as int) =~= all);
    InvertStats {
        partitions_processed: partitions,
        unique_arxiv_works: entries.len(),
        total_citations: total,
    }
}

} // verus!
