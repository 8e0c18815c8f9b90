//! Inverting a partition: from exploded edges to one entry for each cited
//! identifier.

use crate::common::types::{arxiv_doi_for, arxiv_doi_spec};
use crate::extract::provenance::Provenance;
use crate::streaming::partition_writer::{ExplodedRow, RowView};
use vstd::hash_map::StringHashMap;
use vstd::prelude::*;

verus! {

/// How inverted entries are written out.
#[derive(Debug, Clone, Copy, PartialEq, Eq, Structural)]
pub enum OutputMode {
    /// arXiv output: each entry carries the DOI built from its identifier.
    Arxiv,
    /// Generic DOI output.
    Generic,
}

impl Default for OutputMode {
    fn default() -> (m: Self)
        ensures
            m == OutputMode::Arxiv,
    {
        OutputMode::Arxiv
    }
}

/// Counters of the invert phase.
#[derive(Debug, Clone, Copy, PartialEq, Eq, Structural)]
pub struct InvertStats {
    /// Partitions that were inverted.
    pub partitions_processed: usize,
    /// Distinct cited works.
    pub unique_arxiv_works: usize,
    /// The sum of the citation counts.
    pub total_citations: usize,
}

/// One citing work in the list of an inverted entry: its DOI with the raw
/// match, the reference and the provenance of the edge.
#[derive(Debug, Clone)]
pub struct CitedBy {
    /// DOI of the citing work.
    pub doi: String,
    /// The substring that produced the cited identifier.
    pub raw_match: String,
    /// The reference entry, serialized.
    pub reference: String,
    /// How the cited identifier was obtained.
    pub provenance: Provenance,
    /// What else a stored descriptor holds, serialized; it is carried along
    /// as it is. Empty for a descriptor that an inversion made.
    pub extra: String,
}

/// The mathematical value of a [`CitedBy`].
pub struct CitedByView {
    pub doi: Seq<char>,
    pub raw_match: Seq<char>,
    pub reference: Seq<char>,
    pub provenance: Provenance,
    pub extra: Seq<char>,
}

impl DeepView for CitedBy {
    type V = CitedByView;

    open spec fn deep_view(&self) -> CitedByView {
        CitedByView {
            doi: self.doi@,
            raw_match: self.raw_match@,
            reference: self.reference@,
            provenance: self.provenance,
            extra: self.extra@,
        }
    }
}

impl CitedBy {
    /// A copy of the descriptor.
    pub fn duplicate(&self) -> (r: Self)
        ensures
            r.deep_view() == self.deep_view(),
    {
        CitedBy {
            doi: self.doi.clone(),
            raw_match: self.raw_match.clone(),
            reference: self.reference.clone(),
            provenance: self.provenance,
            extra: self.extra.clone(),
        }
    }
}

/// The inverted entry of one cited identifier.
#[derive(Debug, Clone)]
pub struct InvertedEntry {
    /// The cited identifier.
    pub cited_id: String,
    /// The number of distinct citing works.
    pub citation_count: usize,
    /// The number of reference occurrences that are listed.
    pub reference_count: usize,
    /// The citing works.
    pub cited_by: Vec<CitedBy>,
    /// In arXiv mode, the DOI built from the identifier.
    pub arxiv_doi: Option<String>,
}

/// The mathematical value of an [`InvertedEntry`].
pub struct InvertedEntryView {
    pub cited_id: Seq<char>,
    pub citation_count: usize,
    pub reference_count: usize,
    pub cited_by: Seq<CitedByView>,
    pub arxiv_doi: Option<Seq<char>>,
}

impl DeepView for InvertedEntry {
    type V = InvertedEntryView;

    open spec fn deep_view(&self) -> InvertedEntryView {
        InvertedEntryView {
            cited_id: self.cited_id@,
            citation_count: self.citation_count,
            reference_count: self.reference_count,
            cited_by: self.cited_by.deep_view(),
            arxiv_doi: self.arxiv_doi.deep_view(),
        }
    }
}

// ---------------------------------------------------------------------------
// The model
// ---------------------------------------------------------------------------

/// A cited identifier with the citing works gathered for it so far.
pub struct Group {
    pub cited_id: Seq<char>,
    pub cited_by: Seq<CitedByView>,
}

/// The descriptor that a row gives.
pub open spec fn as_cited_by(row: RowView) -> CitedByView {
    CitedByView {
        doi: row.citing_doi,
        raw_match: row.raw_match,
        reference: row.ref_json,
        provenance: row.provenance,
        extra: Seq::empty(),
    }
}

/// The position of the first `k` in `keys`, or -1.
pub open spec fn index_in(keys: Seq<Seq<char>>, k: Seq<char>) -> int
    decreases keys.len(),
{
    if keys.len() == 0 {
        -1
    } else {
        let i = index_in(keys.drop_last(), k);
        if i >= 0 {
            i
        } else if keys.last() == k {
            keys.len() - 1
        } else {
            -1
        }
    }
}

/// The cited identifiers of the groups.
pub open spec fn group_ids(groups: Seq<Group>) -> Seq<Seq<char>> {
    Seq::new(groups.len(), |i: int| groups[i].cited_id)
}

/// The DOIs of the citing works.
pub open spec fn citing_dois(cited_by: Seq<CitedByView>) -> Seq<Seq<char>> {
    Seq::new(cited_by.len(), |i: int| cited_by[i].doi)
}

/// The citing works after the descriptor `c` is taken in: a new citing work
/// is appended; a known one keeps its place and is replaced by `c` when the
/// provenance of `c` is the stronger.
pub open spec fn absorb_citing(cited_by: Seq<CitedByView>, c: CitedByView) -> Seq<CitedByView> {
    let p = index_in(citing_dois(cited_by), c.doi);
    if p < 0 {
        cited_by.push(c)
    } else if c.provenance.rank_spec() > cited_by[p].provenance.rank_spec() {
        cited_by.update(p, c)
    } else {
        cited_by
    }
}

/// The groups after `row` is taken in.
pub open spec fn absorb_row(groups: Seq<Group>, row: RowView) -> Seq<Group> {
    let g = index_in(group_ids(groups), row.cited_id);
    if g < 0 {
        groups.push(Group { cited_id: row.cited_id, cited_by: seq![as_cited_by(row)] })
    } else {
        groups.update(
            g,
            Group {
                cited_id: groups[g].cited_id,
                cited_by: absorb_citing(groups[g].cited_by, as_cited_by(row)),
            },
        )
    }
}

/// The rows grouped by cited identifier, in first-seen order, each pair of
/// citing work and cited identifier kept once.
pub open spec fn grouped(rows: Seq<RowView>) -> Seq<Group>
    decreases rows.len(),
{
    if rows.len() == 0 {
        Seq::empty()
    } else {
        absorb_row(grouped(rows.drop_last()), rows.last())
    }
}

/// The entry that a group gives: both counts are the number of citing works
/// that are listed.
pub open spec fn entry_of(group: Group, mode: OutputMode) -> InvertedEntryView {
    InvertedEntryView {
        cited_id: group.cited_id,
        citation_count: group.cited_by.len() as usize,
        reference_count: group.cited_by.len() as usize,
        cited_by: group.cited_by,
        arxiv_doi: if mode == OutputMode::Arxiv {
            Some(arxiv_doi_spec(group.cited_id))
        } else {
            None
        },
    }
}

/// The inverted entries of the rows of one partition.
pub open spec fn inverted(rows: Seq<RowView>, mode: OutputMode) -> Seq<InvertedEntryView> {
    Seq::new(grouped(rows).len(), |i: int| entry_of(grouped(rows)[i], mode))
}

/// Among the rows that the work `citing` has for the identifier `cited`, the
/// one of the strongest provenance, and of those the first.
pub open spec fn best_row(rows: Seq<RowView>, citing: Seq<char>, cited: Seq<char>) -> Option<
    RowView,
>
    decreases rows.len(),
{
    if rows.len() == 0 {
        None
    } else {
        let before = best_row(rows.drop_last(), citing, cited);
        let r = rows.last();
        if r.citing_doi == citing && r.cited_id == cited {
            match before {
                Some(b) => if r.provenance.rank_spec() > b.provenance.rank_spec() {
                    Some(r)
                } else {
                    before
                },
                None => Some(r),
            }
        } else {
            before
        }
    }
}

/// No two keys are equal.
pub open spec fn distinct(keys: Seq<Seq<char>>) -> bool {
    forall|a: int, b: int| 0 <= a < b < keys.len() ==> keys[a] != keys[b]
}

/// The groups are the rows deduplicated: no identifier has two groups, no
/// citing work stands twice in a group, each descriptor is the best row of
/// its pair, and each pair that has a row has its descriptor.
pub open spec fn is_dedup_of(groups: Seq<Group>, rows: Seq<RowView>) -> bool {
    &&& distinct(group_ids(groups))
    &&& forall|g: int| 0 <= g < groups.len() ==> distinct(citing_dois(#[trigger] groups[g].cited_by))
    &&& forall|g: int, p: int|
        0 <= g < groups.len() && 0 <= p < groups[g].cited_by.len() ==> {
            let c = #[trigger] groups[g].cited_by[p];
            match best_row(rows, c.doi, groups[g].cited_id) {
                Some(r) => as_cited_by(r) == c,
                None => false,
            }
        }
    &&& forall|citing: Seq<char>, cited: Seq<char>|
        (#[trigger] best_row(rows, citing, cited)) is Some ==> {
            let g = index_in(group_ids(groups), cited);
            &&& 0 <= g < groups.len()
            &&& 0 <= index_in(citing_dois(groups[g].cited_by), citing) < groups[g].cited_by.len()
        }
}

// ---------------------------------------------------------------------------
// Lemmas
// ---------------------------------------------------------------------------

/// What [`index_in`] finds is in range and is the key; before it nothing is.
pub proof fn lemma_index_in(keys: Seq<Seq<char>>, k: Seq<char>)
    ensures
        -1 <= index_in(keys, k) < keys.len(),
        index_in(keys, k) >= 0 ==> keys[index_in(keys, k)] == k,
        forall|j: int|
            0 <= j < keys.len() && (index_in(keys, k) < 0 || j < index_in(keys, k))
                ==> #[trigger] keys[j] != k,
    decreases keys.len(),
{
    if keys.len() > 0 {
        lemma_index_in(keys.drop_last(), k);
        assert forall|j: int|
            0 <= j < keys.len() && (index_in(keys, k) < 0 || j < index_in(keys, k))
                implies #[trigger] keys[j] != k by {
            if j < keys.len() - 1 {
                assert(keys.drop_last()[j] == keys[j]);
            }
        }
    }
}

/// In distinct keys, each key is found at its own position.
pub proof fn lemma_index_in_distinct(keys: Seq<Seq<char>>, i: int)
    requires
        distinct(keys),
        0 <= i < keys.len(),
    ensures
        index_in(keys, keys[i]) == i,
{
    lemma_index_in(keys, keys[i]);
}

/// Taking a descriptor in keeps the citing works distinct, and changes the
/// list only at the place of the descriptor's DOI.
proof fn lemma_absorb_citing(cited_by: Seq<CitedByView>, c: CitedByView)
    requires
        distinct(citing_dois(cited_by)),
    ensures
        distinct(citing_dois(absorb_citing(cited_by, c))),
        index_in(citing_dois(absorb_citing(cited_by, c)), c.doi) >= 0,
        forall|d: Seq<char>|
            d != c.doi ==> index_in(citing_dois(absorb_citing(cited_by, c)), d) == index_in(
                citing_dois(cited_by),
                d,
            ),
        forall|p: int|
            0 <= p < cited_by.len() && cited_by[p].doi != c.doi ==> p < absorb_citing(
                cited_by,
                c,
            ).len() && absorb_citing(cited_by, c)[p] == #[trigger] cited_by[p],
        ({
            let p = index_in(citing_dois(cited_by), c.doi);
            let q = index_in(citing_dois(absorb_citing(cited_by, c)), c.doi);
            let after = absorb_citing(cited_by, c);
            &&& 0 <= q < after.len()
            &&& after[q].doi == c.doi
            &&& p < 0 ==> after[q] == c
            &&& p >= 0 ==> q == p && after[q] == (if c.provenance.rank_spec()
                > cited_by[p].provenance.rank_spec() {
                c
            } else {
                cited_by[p]
            })
        }),
{
    let keys = citing_dois(cited_by);
    let after = absorb_citing(cited_by, c);
    let keys_after = citing_dois(after);
    let p = index_in(keys, c.doi);
    lemma_index_in(keys, c.doi);
    if p < 0 {
        assert(keys_after =~= keys.push(c.doi));
        assert(keys_after.drop_last() =~= keys);
        assert forall|a: int, b: int| 0 <= a < b < keys_after.len() implies keys_after[a]
            != keys_after[b] by {
            if b < keys.len() {
                assert(keys[a] != keys[b]);
            } else {
                assert(keys[a] != c.doi);
            }
        }
    } else {
        assert(keys_after =~= keys);
    }
    lemma_index_in(keys_after, c.doi);
    assert forall|d: Seq<char>| d != c.doi implies index_in(keys_after, d) == index_in(
        keys,
        d,
    ) by {}
}

/// Replacing a group by one of the same identifier leaves the identifiers as
/// they are.
proof fn lemma_group_ids_update(groups: Seq<Group>, g: int, group: Group)
    requires
        0 <= g < groups.len(),
        group.cited_id == groups[g].cited_id,
    ensures
        group_ids(groups.update(g, group)) == group_ids(groups),
{
    assert(group_ids(groups.update(g, group)) =~= group_ids(groups));
}

/// The best row of a pair after one more row.
proof fn lemma_best_row_step(rows: Seq<RowView>, row: RowView, citing: Seq<char>, cited: Seq<char>)
    ensures
        best_row(rows.push(row), citing, cited) == (if row.citing_doi == citing && row.cited_id
            == cited {
            match best_row(rows, citing, cited) {
                Some(b) => if row.provenance.rank_spec() > b.provenance.rank_spec() {
                    Some(row)
                } else {
                    Some(b)
                },
                None => Some(row),
            }
        } else {
            best_row(rows, citing, cited)
        }),
{
    assert(rows.push(row).drop_last() =~= rows);
}

/// The best row of a pair is a row of that pair.
proof fn lemma_best_row_is_of_pair(rows: Seq<RowView>, citing: Seq<char>, cited: Seq<char>)
    ensures
        match best_row(rows, citing, cited) {
            Some(r) => r.citing_doi == citing && r.cited_id == cited,
            None => true,
        },
    decreases rows.len(),
{
    if rows.len() > 0 {
        lemma_best_row_is_of_pair(rows.drop_last(), citing, cited);
    }
}

/// Taking one more row in keeps the groups the deduplication of the rows.
proof fn lemma_absorb_row_keeps_dedup(groups: Seq<Group>, rows: Seq<RowView>, row: RowView)
    requires
        is_dedup_of(groups, rows),
    ensures
        is_dedup_of(absorb_row(groups, row), rows.push(row)),
{
    let ids = group_ids(groups);
    let after = absorb_row(groups, row);
    let ids_after = group_ids(after);
    let rows_after = rows.push(row);
    let c = as_cited_by(row);
    let g0 = index_in(ids, row.cited_id);
    lemma_index_in(ids, row.cited_id);
    assert forall|citing: Seq<char>, cited: Seq<char>|
        best_row(rows_after, citing, cited) == (if row.citing_doi == citing && row.cited_id
            == cited {
            match best_row(rows, citing, cited) {
                Some(b) => if row.provenance.rank_spec() > b.provenance.rank_spec() {
                    Some(row)
                } else {
                    Some(b)
                },
                None => Some(row),
            }
        } else {
            best_row(rows, citing, cited)
        }) by {
        lemma_best_row_step(rows, row, citing, cited);
    }
    if g0 < 0 {
        assert(ids_after =~= ids.push(row.cited_id));
        assert(ids_after.drop_last() =~= ids);
        assert forall|a: int, b: int| 0 <= a < b < ids_after.len() implies ids_after[a]
            != ids_after[b] by {
            if b < ids.len() {
                assert(ids[a] != ids[b]);
            } else {
                assert(ids[a] != row.cited_id);
            }
        }
        let fresh = seq![c];
        assert(citing_dois(fresh) =~= seq![c.doi]);
        assert(citing_dois(fresh).drop_last() =~= Seq::<Seq<char>>::empty());
        assert(index_in(citing_dois(fresh).drop_last(), c.doi) == -1);
        assert(index_in(citing_dois(fresh), c.doi) == 0);
        // no row of this identifier was seen before
        assert forall|citing: Seq<char>| best_row(rows, citing, row.cited_id) is None by {
            if best_row(rows, citing, row.cited_id) is Some {
                let g = index_in(ids, row.cited_id);
                assert(0 <= g);
            }
        }
        assert forall|g: int| 0 <= g < after.len() implies distinct(
            citing_dois(#[trigger] after[g].cited_by),
        ) by {
            if g < groups.len() {
                assert(after[g] == groups[g]);
            }
        }
        assert forall|g: int, p: int|
            0 <= g < after.len() && 0 <= p < after[g].cited_by.len() implies {
            let x = #[trigger] after[g].cited_by[p];
            match best_row(rows_after, x.doi, after[g].cited_id) {
                Some(r) => as_cited_by(r) == x,
                None => false,
            }
        } by {
            if g < groups.len() {
                assert(after[g] == groups[g]);
                assert(ids[g] == groups[g].cited_id);
                assert(groups[g].cited_id != row.cited_id);
            }
        }
        assert forall|citing: Seq<char>, cited: Seq<char>|
            (#[trigger] best_row(rows_after, citing, cited)) is Some implies {
            let g = index_in(ids_after, cited);
            &&& 0 <= g < after.len()
            &&& 0 <= index_in(citing_dois(after[g].cited_by), citing) < after[g].cited_by.len()
        } by {
            lemma_index_in(ids_after, cited);
            if cited == row.cited_id {
                lemma_best_row_is_of_pair(rows_after, citing, cited);
                assert(best_row(rows, citing, cited) is None);
                assert(citing == row.citing_doi);
                assert(index_in(ids_after, cited) == ids.len());
                assert(after[ids.len() as int].cited_by == fresh);
            } else {
                assert(best_row(rows, citing, cited) is Some);
                let g = index_in(ids, cited);
                assert(index_in(ids_after, cited) == g);
                assert(after[g] == groups[g]);
            }
        }
    } else {
        let old_group = groups[g0];
        let new_list = absorb_citing(old_group.cited_by, c);
        let new_group = Group { cited_id: old_group.cited_id, cited_by: new_list };
        assert(ids[g0] == old_group.cited_id);
        lemma_group_ids_update(groups, g0, new_group);
        assert(ids_after == ids);
        assert(distinct(citing_dois(old_group.cited_by)));
        lemma_absorb_citing(old_group.cited_by, c);
        assert forall|g: int| 0 <= g < after.len() implies distinct(
            citing_dois(#[trigger] after[g].cited_by),
        ) by {
            if g != g0 {
                assert(after[g] == groups[g]);
            }
        }
        assert forall|g: int, p: int|
            0 <= g < after.len() && 0 <= p < after[g].cited_by.len() implies {
            let x = #[trigger] after[g].cited_by[p];
            match best_row(rows_after, x.doi, after[g].cited_id) {
                Some(r) => as_cited_by(r) == x,
                None => false,
            }
        } by {
            if g != g0 {
                assert(after[g] == groups[g]);
                assert(ids[g] == groups[g].cited_id);
                assert(ids[g] != ids[g0]);
            } else {
                let x = new_list[p];
                let keys_after = citing_dois(new_list);
                assert(keys_after[p] == x.doi);
                lemma_index_in_distinct(keys_after, p);
                if x.doi == c.doi {
                    let known = index_in(citing_dois(old_group.cited_by), c.doi);
                    if known >= 0 {
                        lemma_index_in(citing_dois(old_group.cited_by), c.doi);
                        let y = old_group.cited_by[known];
                        assert(citing_dois(old_group.cited_by)[known] == y.doi);
                    } else {
                        assert(best_row(rows, c.doi, row.cited_id) is None) by {
                            if best_row(rows, c.doi, row.cited_id) is Some {
                                assert(index_in(citing_dois(groups[g0].cited_by), c.doi) >= 0);
                            }
                        }
                    }
                } else {
                    lemma_index_in(citing_dois(old_group.cited_by), x.doi);
                    let q = index_in(citing_dois(old_group.cited_by), x.doi);
                    assert(q == p);
                    assert(citing_dois(old_group.cited_by)[p] == old_group.cited_by[p].doi);
                    assert(new_list[p] == old_group.cited_by[p]);
                }
            }
        }
        assert forall|citing: Seq<char>, cited: Seq<char>|
            (#[trigger] best_row(rows_after, citing, cited)) is Some implies {
            let g = index_in(ids_after, cited);
            &&& 0 <= g < after.len()
            &&& 0 <= index_in(citing_dois(after[g].cited_by), citing) < after[g].cited_by.len()
        } by {
            lemma_index_in(ids, cited);
            if cited == row.cited_id {
                lemma_index_in(citing_dois(new_list), citing);
                if citing != c.doi {
                    assert(best_row(rows, citing, cited) is Some);
                    assert(index_in(citing_dois(groups[g0].cited_by), citing) >= 0);
                }
            } else {
                assert(best_row(rows, citing, cited) is Some);
                let g = index_in(ids, cited);
                assert(after[g] == groups[g]);
            }
        }
    }
}

/// Grouping deduplicates: in the groups of `rows`, every cited identifier
/// stands once, every citing work stands once in the list of an identifier,
/// each descriptor is the row of the strongest provenance that its citing
/// work has for the identifier (the first of them), and every pair that has
/// a row has its descriptor.
pub proof fn lemma_grouped_is_dedup(rows: Seq<RowView>)
    ensures
        is_dedup_of(grouped(rows), rows),
    decreases rows.len(),
{
    if rows.len() == 0 {
    } else {
        lemma_grouped_is_dedup(rows.drop_last());
        lemma_absorb_row_keeps_dedup(grouped(rows.drop_last()), rows.drop_last(), rows.last());
        assert(rows.drop_last().push(rows.last()) =~= rows);
    }
}

/// The number of distinct keys of a list without duplicates is its length.
pub proof fn lemma_distinct_count(keys: Seq<Seq<char>>)
    requires
        distinct(keys),
    ensures
        keys.to_set().finite(),
        keys.to_set().len() == keys.len(),
{
    assert(keys.no_duplicates());
    keys.unique_seq_to_set();
}

/// In every inverted entry, the citation count is the number of distinct
/// citing DOIs in its list, and the reference count is the length of its
/// list.
pub proof fn lemma_inverted_counts(rows: Seq<RowView>, mode: OutputMode, i: int)
    requires
        0 <= i < inverted(rows, mode).len(),
        grouped(rows)[i].cited_by.len() <= usize::MAX,
    ensures
        inverted(rows, mode)[i].reference_count == inverted(rows, mode)[i].cited_by.len(),
        inverted(rows, mode)[i].citation_count == citing_dois(
            inverted(rows, mode)[i].cited_by,
        ).to_set().len(),
{
    lemma_grouped_is_dedup(rows);
    let group = grouped(rows)[i];
    lemma_distinct_count(citing_dois(group.cited_by));
}

// ---------------------------------------------------------------------------
// The code
// ---------------------------------------------------------------------------

/// `slots` maps each key of `keys` to its first position, and nothing else.
pub open spec fn slots_match(slots: Map<Seq<char>, usize>, keys: Seq<Seq<char>>) -> bool {
    forall|k: Seq<char>|
        {
            &&& #[trigger] slots.contains_key(k) <==> index_in(keys, k) >= 0
            &&& slots.contains_key(k) ==> slots[k] == index_in(keys, k)
        }
}

/// A new key takes the next position.
proof fn lemma_slots_match_push(slots: Map<Seq<char>, usize>, keys: Seq<Seq<char>>, k: Seq<char>)
    requires
        slots_match(slots, keys),
        index_in(keys, k) < 0,
        keys.len() <= usize::MAX,
    ensures
        slots_match(slots.insert(k, keys.len() as usize), keys.push(k)),
{
    let after = keys.push(k);
    assert(after.drop_last() =~= keys);
    assert forall|j: Seq<char>|
        {
            &&& #[trigger] slots.insert(k, keys.len() as usize).contains_key(j) <==> index_in(
                after,
                j,
            ) >= 0
            &&& slots.insert(k, keys.len() as usize).contains_key(j) ==> slots.insert(
                k,
                keys.len() as usize,
            )[j] == index_in(after, j)
        } by {
        assert(slots.contains_key(j) <==> index_in(keys, j) >= 0);
    }
}

/// A group while it is gathered: its citing works, and where each stands.
struct GroupBuf {
    cited_id: String,
    cited_by: Vec<CitedBy>,
    slots: StringHashMap<usize>,
}

spec fn buf_view(b: GroupBuf) -> Group {
    Group { cited_id: b.cited_id@, cited_by: b.cited_by.deep_view() }
}

spec fn bufs_view(bufs: Seq<GroupBuf>) -> Seq<Group> {
    Seq::new(bufs.len(), |i: int| buf_view(bufs[i]))
}

spec fn bufs_indexed(bufs: Seq<GroupBuf>) -> bool {
    forall|g: int|
        0 <= g < bufs.len() ==> slots_match(
            (#[trigger] bufs[g]).slots@,
            citing_dois(bufs[g].cited_by.deep_view()),
        )
}

fn descriptor_of(row: &ExplodedRow) -> (c: CitedBy)
    ensures
        c.deep_view() == as_cited_by(row.deep_view()),
{
    CitedBy {
        doi: row.citing_doi.clone(),
        raw_match: row.raw_match.clone(),
        reference: row.ref_json.clone(),
        provenance: row.provenance,
        extra: String::new(),
    }
}

/// Takes one row into the group at `g`.
fn absorb_into_group(bufs: &mut Vec<GroupBuf>, g: usize, row: &ExplodedRow)
    requires
        g < old(bufs)@.len(),
        bufs_indexed(old(bufs)@),
    ensures
        final(bufs)@.len() == old(bufs)@.len(),
        bufs_indexed(final(bufs)@),
        forall|j: int| 0 <= j < old(bufs)@.len() && j != g ==> final(bufs)@[j] == old(bufs)@[j],
        final(bufs)@[g as int].cited_id == old(bufs)@[g as int].cited_id,
        final(bufs)@[g as int].cited_by.deep_view() == absorb_citing(
            old(bufs)@[g as int].cited_by.deep_view(),
            as_cited_by(row.deep_view()),
        ),
{
    let c = descriptor_of(row);
    let ghost before = bufs@[g as int].cited_by.deep_view();
    let ghost keys = citing_dois(before);
    let ghost cv = c.deep_view();
    proof {
        lemma_index_in(keys, cv.doi);
    }
    let found: Option<usize> = match bufs[g].slots.get(row.citing_doi.as_str()) {
        Some(p) => Some(*p),
        None => None,
    };
    match found {
        Some(p) => {
            assert(keys[p as int] == before[p as int].doi);
            if c.provenance.rank() > bufs[g].cited_by[p].provenance.rank() {
                bufs[g].cited_by[p] = c;
                proof {
                    let after = bufs@[g as int].cited_by.deep_view();
                    assert(after =~= before.update(p as int, cv));
                    assert(citing_dois(after) =~= keys);
                }
            }
        },
        None => {
            let p = bufs[g].cited_by.len();
            bufs[g].cited_by.push(c);
            bufs[g].slots.insert(row.citing_doi.clone(), p);
            proof {
                let after = bufs@[g as int].cited_by.deep_view();
                assert(after =~= before.push(cv));
                assert(citing_dois(after) =~= keys.push(cv.doi));
                lemma_slots_match_push(old(bufs)@[g as int].slots@, keys, cv.doi);
            }
        },
    }
}

/// The rows of one partition, inverted: one entry for each cited
/// identifier, in first-seen order; each pair of citing work and cited
/// identifier is kept once, with the row of the strongest provenance (the
/// first of them); both counts of an entry are the number of citing works in
/// its list. In arXiv mode each entry carries the DOI built from its
/// identifier.
pub fn invert_partition(rows: &Vec<ExplodedRow>, mode: OutputMode) -> (entries: Vec<InvertedEntry>)
    ensures
        entries.deep_view() == inverted(rows.deep_view(), mode),
        is_dedup_of(grouped(rows.deep_view()), rows.deep_view()),
{
    let mut bufs: Vec<GroupBuf> = Vec::new();
    let mut group_slots: StringHashMap<usize> = StringHashMap::new();
    let ghost all = rows.deep_view();
    let mut i: usize = 0;
    assert(all.take(0) =~= Seq::<RowView>::empty());
    assert(bufs_view(bufs@) =~= Seq::<Group>::empty());
    while i < rows.len()
        invariant
            i <= rows.len(),
            all == rows.deep_view(),
            bufs_view(bufs@) == grouped(all.take(i as int)),
            slots_match(group_slots@, group_ids(bufs_view(bufs@))),
            bufs_indexed(bufs@),
        decreases rows.len() - i,
    {
        let row = &rows[i];
        let ghost rv = row.deep_view();
        let ghost before = bufs_view(bufs@);
        let ghost ids = group_ids(before);
        proof {
            assert(all.take(i + 1).drop_last() =~= all.take(i as int));
            assert(all.take(i + 1).last() == rv);
            lemma_index_in(ids, rv.cited_id);
        }
        let found: Option<usize> = match group_slots.get(row.cited_id.as_str()) {
            Some(g) => Some(*g),
            None => None,
        };
        match found {
            Some(g) => {
                absorb_into_group(&mut bufs, g, row);
                proof {
                    let after = bufs_view(bufs@);
                    assert(after =~= absorb_row(before, rv)) by {
                        assert(ids[g as int] == before[g as int].cited_id);
                    }
                    lemma_group_ids_update(before, g as int, after[g as int]);
                    assert(group_ids(after) =~= ids);
                }
            },
            None => {
                let g = bufs.len();
                let ghost slots_before = group_slots@;
                let mut slots: StringHashMap<usize> = StringHashMap::new();
                slots.insert(row.citing_doi.clone(), 0);
                let c = descriptor_of(row);
                let mut cited_by: Vec<CitedBy> = Vec::new();
                cited_by.push(c);
                proof {
                    let list = cited_by.deep_view();
                    assert(list =~= seq![as_cited_by(rv)]);
                    let keys = citing_dois(list);
                    assert(keys =~= Seq::<Seq<char>>::empty().push(rv.citing_doi));
                    lemma_slots_match_push(Map::empty(), Seq::empty(), rv.citing_doi);
                }
                bufs.push(GroupBuf { cited_id: row.cited_id.clone(), cited_by, slots });
                group_slots.insert(row.cited_id.clone(), g);
                proof {
                    let after = bufs_view(bufs@);
                    assert(after =~= absorb_row(before, rv));
                    assert(group_ids(after) =~= ids.push(rv.cited_id));
                    lemma_slots_match_push(slots_before, ids, rv.cited_id);
                }
            },
        }
        i += 1;
    }
    assert(all.take(rows.len() as int) =~= all);
    let mut entries: Vec<InvertedEntry> = Vec::new();
    let mut g: usize = 0;
    let ghost groups = bufs_view(bufs@);
    while g < bufs.len()
        invariant
            g <= bufs@.len(),
            bufs@.len() == groups.len(),
            groups == grouped(all),
            forall|j: int| g <= j < bufs@.len() ==> buf_view(#[trigger] bufs@[j]) == groups[j],
            entries.deep_view().len() == g,
            forall|j: int|
                0 <= j < g ==> #[trigger] entries.deep_view()[j] == entry_of(groups[j], mode),
        decreases bufs@.len() - g,
    {
        let ghost before = entries.deep_view();
        let mut cited_by: Vec<CitedBy> = Vec::new();
        core::mem::swap(&mut bufs[g].cited_by, &mut cited_by);
        let count = cited_by.len();
        let arxiv_doi = match mode {
            OutputMode::Arxiv => Some(arxiv_doi_for(bufs[g].cited_id.as_str())),
            OutputMode::Generic => None,
        };
        let entry = InvertedEntry {
            cited_id: bufs[g].cited_id.clone(),
            citation_count: count,
            reference_count: count,
            cited_by,
            arxiv_doi,
        };
        assert(entry.deep_view() == entry_of(groups[g as int], mode));
        entries.push(entry);
        assert(entries.deep_view() =~= before.push(entry.deep_view()));
        g += 1;
    }
    assert(entries.deep_view() =~= inverted(all, mode));
    proof {
        lemma_grouped_is_dedup(all);
    }
    entries
}

} // verus!
