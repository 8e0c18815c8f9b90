//! Buffering exploded edges by partition, and handing full buffers out.
//!
//! The writer decides; it does not touch files. Whoever drives it appends
//! each batch that it hands out to the file of the batch's partition.

use crate::extract::provenance::Provenance;
use crate::streaming::{partition_key, partition_key_spec};
use crate::text::{chars_of, joined, string_of};
use vstd::hash_map::StringHashMap;
use vstd::prelude::*;

verus! {

/// One exploded edge: a citing work, one of its references, and one
/// identifier that the reference cites.
#[derive(Debug, Clone)]
pub struct ExplodedRow {
    /// DOI of the citing work.
    pub citing_doi: String,
    /// Position of the reference within the citing work, from 0.
    pub ref_index: u32,
    /// The reference entry as it was serialized.
    pub ref_json: String,
    /// The substring that produced the identifier.
    pub raw_match: String,
    /// The normalized identifier that is cited.
    pub cited_id: String,
    /// How the identifier was obtained.
    pub provenance: Provenance,
}

/// The mathematical value of an [`ExplodedRow`].
pub struct RowView {
    pub citing_doi: Seq<char>,
    pub ref_index: u32,
    pub ref_json: Seq<char>,
    pub raw_match: Seq<char>,
    pub cited_id: Seq<char>,
    pub provenance: Provenance,
}

impl DeepView for ExplodedRow {
    type V = RowView;

    open spec fn deep_view(&self) -> RowView {
        RowView {
            citing_doi: self.citing_doi@,
            ref_index: self.ref_index,
            ref_json: self.ref_json@,
            raw_match: self.raw_match@,
            cited_id: self.cited_id@,
            provenance: self.provenance,
        }
    }
}

impl View for ExplodedRow {
    type V = RowView;

    open spec fn view(&self) -> RowView {
        self.deep_view()
    }
}

impl ExplodedRow {
    /// A copy of the row.
    pub fn duplicate(&self) -> (r: Self)
        ensures
            r.deep_view() == self.deep_view(),
    {
        ExplodedRow {
            citing_doi: self.citing_doi.clone(),
            ref_index: self.ref_index,
            ref_json: self.ref_json.clone(),
            raw_match: self.raw_match.clone(),
            cited_id: self.cited_id.clone(),
            provenance: self.provenance,
        }
    }
}

/// The rows of one partition that wait to be written.
pub struct PartitionBuffer {
    /// The partition key.
    pub name: String,
    /// The rows, in the order in which they came.
    pub rows: Vec<ExplodedRow>,
}

/// Rows that are to be appended to the file of one partition.
pub struct FlushBatch {
    /// The partition key.
    pub partition: String,
    /// The rows, in the order in which they came.
    pub rows: Vec<ExplodedRow>,
}

/// Why a reference could not be written.
#[derive(Debug, Clone, Copy, PartialEq, Eq, Structural)]
pub enum PartitionError {
    /// The lists of raw matches, cited identifiers and provenances differ in
    /// length.
    LengthMismatch,
}

/// What writing one reference brought about.
pub struct WriteOutcome {
    /// The number of rows that were written.
    pub rows_written: usize,
    /// The batches that became due meanwhile, in the order in which they did.
    pub batches: Vec<FlushBatch>,
}

/// The mathematical value of a [`FlushBatch`].
pub struct BatchView {
    pub partition: Seq<char>,
    pub rows: Seq<RowView>,
}

impl DeepView for FlushBatch {
    type V = BatchView;

    open spec fn deep_view(&self) -> BatchView {
        BatchView { partition: self.partition@, rows: self.rows.deep_view() }
    }
}

/// The rows that the batches hold for the partition `k`, batch by batch:
/// what is appended to the file of `k` when the batches are written out.
pub open spec fn batch_rows_for(batches: Seq<BatchView>, k: Seq<char>) -> Seq<RowView>
    decreases batches.len(),
{
    if batches.len() == 0 {
        Seq::empty()
    } else {
        let rest = batch_rows_for(batches.drop_last(), k);
        if batches.last().partition == k {
            rest + batches.last().rows
        } else {
            rest
        }
    }
}

/// The rows of a concatenation of batches are the rows of its parts.
pub proof fn lemma_batch_rows_concat(a: Seq<BatchView>, b: Seq<BatchView>, k: Seq<char>)
    ensures
        batch_rows_for(a + b, k) == batch_rows_for(a, k) + batch_rows_for(b, k),
    decreases b.len(),
{
    if b.len() == 0 {
        assert(a + b =~= a);
        assert(batch_rows_for(a, k) + batch_rows_for(b, k) =~= batch_rows_for(a, k));
    } else {
        assert((a + b).drop_last() =~= a + b.drop_last());
        lemma_batch_rows_concat(a, b.drop_last(), k);
        assert(batch_rows_for(a + b, k) =~= batch_rows_for(a, k) + batch_rows_for(b, k));
    }
}

/// The rows of a single batch.
pub proof fn lemma_batch_rows_one(b: BatchView, k: Seq<char>)
    ensures
        batch_rows_for(seq![b], k) == (if b.partition == k {
            b.rows
        } else {
            Seq::empty()
        }),
{
    let one = seq![b];
    assert(one.drop_last() =~= Seq::<BatchView>::empty());
    assert(batch_rows_for(one.drop_last(), k) =~= Seq::<RowView>::empty());
    assert(one.last() == b);
    if b.partition == k {
        assert(Seq::<RowView>::empty() + b.rows =~= b.rows);
    }
}

/// Among batches of distinct partitions, the rows for a partition are the
/// rows of its batch, if it has one.
pub proof fn lemma_batch_rows_single(batches: Seq<BatchView>, k: Seq<char>)
    requires
        forall|a: int, b: int|
            0 <= a < b < batches.len() ==> batches[a].partition != batches[b].partition,
    ensures
        forall|j: int|
            0 <= j < batches.len() && (#[trigger] batches[j]).partition == k ==> batch_rows_for(
                batches,
                k,
            ) == batches[j].rows,
        (forall|j: int| 0 <= j < batches.len() ==> (#[trigger] batches[j]).partition != k)
            ==> batch_rows_for(batches, k) == Seq::<RowView>::empty(),
    decreases batches.len(),
{
    if batches.len() > 0 {
        let before = batches.drop_last();
        assert forall|a: int, b: int| 0 <= a < b < before.len() implies before[a].partition
            != before[b].partition by {
            assert(before[a] == batches[a]);
            assert(before[b] == batches[b]);
        }
        lemma_batch_rows_single(before, k);
        if batches.last().partition == k {
            assert forall|j: int| 0 <= j < before.len() implies (#[trigger] before[j]).partition
                != k by {
                assert(before[j] == batches[j]);
            }
            assert(batch_rows_for(batches, k) =~= batches.last().rows);
            assert forall|j: int|
                0 <= j < batches.len() && (#[trigger] batches[j]).partition
                    == k implies batch_rows_for(batches, k) == batches[j].rows by {
                if j < before.len() {
                    assert(before[j] == batches[j]);
                }
            }
        } else {
            assert forall|j: int|
                0 <= j < batches.len() && (#[trigger] batches[j]).partition
                    == k implies batch_rows_for(batches, k) == batches[j].rows by {
                assert(before[j] == batches[j]);
            }
            if forall|j: int| 0 <= j < batches.len() ==> (#[trigger] batches[j]).partition != k {
                assert forall|j: int| 0 <= j < before.len() implies (#[trigger] before[j]).partition
                    != k by {
                    assert(before[j] == batches[j]);
                }
            }
        }
    }
}

/// The rows of `rows` that are routed to the partition `k`, in order.
pub open spec fn routed(rows: Seq<RowView>, k: Seq<char>) -> Seq<RowView>
    decreases rows.len(),
{
    if rows.len() == 0 {
        Seq::empty()
    } else {
        let rest = routed(rows.drop_last(), k);
        if partition_key_spec(rows.last().cited_id) == k {
            rest.push(rows.last())
        } else {
            rest
        }
    }
}

/// `tail` is what `whole` ends with.
pub open spec fn is_suffix(tail: Seq<RowView>, whole: Seq<RowView>) -> bool {
    tail.len() <= whole.len() && whole.subrange(whole.len() - tail.len(), whole.len() as int)
        == tail
}

/// The rows that one reference explodes to: one for each cited identifier.
pub open spec fn exploded(
    citing_doi: Seq<char>,
    ref_index: u32,
    ref_json: Seq<char>,
    raw_matches: Seq<Seq<char>>,
    cited_ids: Seq<Seq<char>>,
    provenances: Seq<Provenance>,
) -> Seq<RowView> {
    Seq::new(
        cited_ids.len(),
        |i: int|
            RowView {
                citing_doi,
                ref_index,
                ref_json,
                raw_match: raw_matches[i],
                cited_id: cited_ids[i],
                provenance: provenances[i],
            },
    )
}

/// The name of the file that holds the partition `key`: the key, a dot, and
/// the extension.
pub open spec fn partition_file_name_spec(key: Seq<char>, extension: Seq<char>) -> Seq<char> {
    key + seq!['.'] + extension
}

/// The name of the file that holds the partition `key`.
pub fn partition_file_name(key: &str, extension: &str) -> (name: String)
    ensures
        name@ == partition_file_name_spec(key@, extension@),
{
    let mut v = chars_of(key);
    v.push('.');
    let stem = string_of(&v);
    assert(stem@ =~= key@ + seq!['.']);
    joined(stem.as_str(), extension)
}

/// Routes exploded edges to per-partition buffers and hands a buffer out as
/// a batch when it has reached the flush threshold.
pub struct PartitionWriter {
    buffers: Vec<PartitionBuffer>,
    slots: StringHashMap<usize>,
    flush_threshold: usize,
    accepted: Ghost<Seq<RowView>>,
}

impl PartitionWriter {
    /// Every row that was written, in order.
    pub closed spec fn accepted(&self) -> Seq<RowView> {
        self.accepted@
    }

    /// The number of buffered rows at which a partition is handed out.
    pub closed spec fn threshold(&self) -> usize {
        self.flush_threshold
    }

    /// The partitions that have been written to.
    pub closed spec fn partitions(&self) -> Set<Seq<char>> {
        self.slots@.dom()
    }

    /// The rows of partition `k` that wait in its buffer.
    pub closed spec fn buffered(&self, k: Seq<char>) -> Seq<RowView> {
        if self.slots@.contains_key(k) && self.slots@[k] < self.buffers@.len() {
            self.buffers@[self.slots@[k] as int].rows.deep_view()
        } else {
            Seq::empty()
        }
    }

    /// The rows of partition `k` that were handed out in batches: what the
    /// file of the partition holds once every batch has been appended to it.
    pub open spec fn flushed(&self, k: Seq<char>) -> Seq<RowView> {
        let all = routed(self.accepted(), k);
        all.subrange(0, all.len() - self.buffered(k).len())
    }

    /// Each buffer is found under its name; it holds the last rows that were
    /// routed to its partition; and no row was routed to a partition without
    /// a buffer.
    pub closed spec fn wf(&self) -> bool {
        &&& forall|i: int|
            0 <= i < self.buffers@.len() ==> {
                &&& self.slots@.contains_key(#[trigger] self.buffers@[i].name@)
                &&& self.slots@[self.buffers@[i].name@] == i
            }
        &&& forall|k: Seq<char>| #[trigger]
            self.slots@.contains_key(k) ==> {
                &&& self.slots@[k] < self.buffers@.len()
                &&& self.buffers@[self.slots@[k] as int].name@ == k
            }
        &&& forall|k: Seq<char>|
            is_suffix(#[trigger] self.buffered(k), routed(self.accepted@, k))
        &&& forall|k: Seq<char>|
            !self.slots@.contains_key(k) ==> (#[trigger] routed(self.accepted@, k)).len() == 0
    }

    /// What well-formedness says: the rows handed out for a partition and the
    /// rows that wait in its buffer are, together, the rows routed to it.
    pub proof fn lemma_flushed_and_buffered(&self, k: Seq<char>)
        requires
            self.wf(),
        ensures
            self.flushed(k) + self.buffered(k) == routed(self.accepted(), k),
            self.buffered(k).len() == 0 ==> self.flushed(k) == routed(self.accepted(), k),
    {
        let all = routed(self.accepted(), k);
        assert(is_suffix(self.buffered(k), all));
        assert(self.flushed(k) + self.buffered(k) =~= all);
        if self.buffered(k).len() == 0 {
            assert(self.flushed(k) =~= all);
        }
    }

    /// A writer without rows that hands a partition out when its buffer has
    /// `flush_threshold` rows.
    pub fn new(flush_threshold: usize) -> (w: Self)
        ensures
            w.wf(),
            w.threshold() == flush_threshold,
            w.accepted() == Seq::<RowView>::empty(),
            w.partitions() == Set::<Seq<char>>::empty(),
            forall|k: Seq<char>| w.buffered(k) == Seq::<RowView>::empty(),
    {
        let w = PartitionWriter {
            buffers: Vec::new(),
            slots: StringHashMap::new(),
            flush_threshold,
            accepted: Ghost(Seq::empty()),
        };
        assert(w.partitions() =~= Set::<Seq<char>>::empty());
        assert forall|k: Seq<char>|
            is_suffix(#[trigger] w.buffered(k), routed(w.accepted@, k)) by {
            assert(routed(w.accepted@, k).subrange(0, 0) =~= Seq::empty());
        }
        w
    }

    /// The index of the buffer of partition `key`, which is created if the
    /// partition is new.
    fn slot_for(&mut self, key: &String) -> (i: usize)
        requires
            old(self).wf(),
        ensures
            final(self).wf(),
            final(self).accepted@ == old(self).accepted@,
            final(self).flush_threshold == old(self).flush_threshold,
            final(self).slots@.contains_key(key@),
            final(self).slots@[key@] == i,
            i < final(self).buffers@.len(),
            final(self).slots@.dom() == old(self).slots@.dom().insert(key@),
            forall|k: Seq<char>| final(self).buffered(k) == old(self).buffered(k),
    {
        match self.slots.get(key.as_str()) {
            Some(found) => {
                assert(self.slots@.dom().insert(key@) =~= self.slots@.dom());
                *found
            },
            None => {
                let i = self.buffers.len();
                proof {
                    assert(routed(self.accepted@, key@).len() == 0);
                }
                self.buffers.push(PartitionBuffer { name: key.clone(), rows: Vec::new() });
                self.slots.insert(key.clone(), i);
                proof {
                    assert(self.buffers@[i as int].rows.deep_view() =~= Seq::<RowView>::empty());
                    assert forall|j: int| 0 <= j < self.buffers@.len() implies {
                        &&& self.slots@.contains_key(#[trigger] self.buffers@[j].name@)
                        &&& self.slots@[self.buffers@[j].name@] == j
                    } by {
                        if j < i {
                            assert(self.buffers@[j] == old(self).buffers@[j]);
                            assert(old(self).slots@.contains_key(old(self).buffers@[j].name@));
                        }
                    }
                    assert forall|k: Seq<char>| final(self).buffered(k) == old(self).buffered(
                        k,
                    ) by {
                        if k != key@ && old(self).slots@.contains_key(k) {
                            assert(self.buffers@[old(self).slots@[k] as int] == old(
                                self,
                            ).buffers@[old(self).slots@[k] as int]);
                        }
                    }
                    assert forall|k: Seq<char>|
                        is_suffix(#[trigger] self.buffered(k), routed(self.accepted@, k)) by {
                        assert(is_suffix(old(self).buffered(k), routed(old(self).accepted@, k)));
                    }
                }
                i
            },
        }
    }

    /// Writes one row: it joins the buffer of its partition, and when the
    /// buffer then holds `threshold` rows or more, the buffer is emptied and
    /// its rows are handed out as a batch.
    pub fn write(&mut self, row: ExplodedRow) -> (batch: Option<FlushBatch>)
        requires
            old(self).wf(),
        ensures
            final(self).wf(),
            final(self).threshold() == old(self).threshold(),
            final(self).accepted() == old(self).accepted().push(row.deep_view()),
            final(self).partitions() == old(self).partitions().insert(
                partition_key_spec(row.cited_id@),
            ),
            forall|k: Seq<char>|
                k != partition_key_spec(row.cited_id@) ==> final(self).buffered(k) == old(
                    self,
                ).buffered(k) && final(self).flushed(k) == old(self).flushed(k),
            ({
                let k = partition_key_spec(row.cited_id@);
                let filled = old(self).buffered(k).push(row.deep_view());
                if filled.len() >= old(self).threshold() {
                    &&& batch is Some
                    &&& batch->0.partition@ == k
                    &&& batch->0.rows.deep_view() == filled
                    &&& final(self).buffered(k) == Seq::<RowView>::empty()
                    &&& final(self).flushed(k) == old(self).flushed(k) + filled
                } else {
                    &&& batch is None
                    &&& final(self).buffered(k) == filled
                    &&& final(self).flushed(k) == old(self).flushed(k)
                }
            }),
            handed_out(
                *old(self),
                *final(self),
                match batch {
                    Some(b) => seq![b.deep_view()],
                    None => Seq::empty(),
                },
            ),
    {
        let key = partition_key(row.cited_id.as_str());
        let i = self.slot_for(&key);
        let ghost mid = *self;
        let ghost rv = row.deep_view();
        let ghost k = key@;
        let ghost before = self.buffers@[i as int].rows.deep_view();
        self.buffers[i].rows.push(row);
        self.accepted = Ghost(self.accepted@.push(rv));
        proof {
            assert(self.buffers@[i as int].rows.deep_view() =~= before.push(rv));
            assert(self.accepted@.drop_last() =~= mid.accepted@);
            assert forall|k2: Seq<char>| k2 != k implies self.buffered(k2) == mid.buffered(k2) by {
                if mid.slots@.contains_key(k2) {
                    assert(mid.slots@[k2] != i);
                }
            }
            assert(mid.buffered(k) == before);
            assert(is_suffix(mid.buffered(k), routed(mid.accepted@, k)));
            lemma_suffix_push(before, routed(mid.accepted@, k), rv);
            assert(self.buffered(k) == before.push(rv));
            assert forall|k2: Seq<char>|
                is_suffix(#[trigger] self.buffered(k2), routed(self.accepted@, k2)) by {
                assert(is_suffix(mid.buffered(k2), routed(mid.accepted@, k2)));
                if k2 == k {
                    assert(routed(self.accepted@, k) == routed(mid.accepted@, k).push(rv));
                } else {
                    assert(routed(self.accepted@, k2) == routed(mid.accepted@, k2));
                }
            }
            assert forall|j: int| 0 <= j < self.buffers@.len() implies {
                &&& self.slots@.contains_key(#[trigger] self.buffers@[j].name@)
                &&& self.slots@[self.buffers@[j].name@] == j
            } by {
                assert(mid.slots@.contains_key(mid.buffers@[j].name@));
            }
            assert forall|k2: Seq<char>| #[trigger] self.slots@.contains_key(k2) implies {
                &&& self.slots@[k2] < self.buffers@.len()
                &&& self.buffers@[self.slots@[k2] as int].name@ == k2
            } by {
                assert(mid.slots@.contains_key(k2));
            }
            assert forall|k2: Seq<char>| !self.slots@.contains_key(k2) implies (#[trigger] routed(
                self.accepted@,
                k2,
            )).len() == 0 by {
                assert(routed(self.accepted@, k2) == routed(mid.accepted@, k2));
            }
            assert(self.wf());
        }
        if self.buffers[i].rows.len() >= self.flush_threshold {
            let ghost full = *self;
            let mut rows: Vec<ExplodedRow> = Vec::new();
            core::mem::swap(&mut self.buffers[i].rows, &mut rows);
            proof {
                assert(self.buffers@[i as int].rows.deep_view() =~= Seq::<RowView>::empty());
                assert forall|k2: Seq<char>| k2 != k implies self.buffered(k2) == full.buffered(
                    k2,
                ) by {
                    if full.slots@.contains_key(k2) {
                        assert(full.slots@[k2] != i);
                    }
                }
                assert forall|k2: Seq<char>|
                    is_suffix(#[trigger] self.buffered(k2), routed(self.accepted@, k2)) by {
                    assert(is_suffix(full.buffered(k2), routed(full.accepted@, k2)));
                    if k2 == k {
                        let all = routed(self.accepted@, k2);
                        assert(all.subrange(all.len() as int, all.len() as int) =~= Seq::empty());
                    }
                }
                assert forall|j: int| 0 <= j < self.buffers@.len() implies {
                    &&& self.slots@.contains_key(#[trigger] self.buffers@[j].name@)
                    &&& self.slots@[self.buffers@[j].name@] == j
                } by {
                    assert(full.slots@.contains_key(full.buffers@[j].name@));
                }
                assert(self.wf());
                old(self).lemma_flushed_and_buffered(k);
                self.lemma_flushed_and_buffered(k);
                assert(self.flushed(k) =~= old(self).flushed(k) + before.push(rv));
            }
            let batch = FlushBatch { partition: key, rows };
            proof {
                let bv = batch.deep_view();
                assert forall|k2: Seq<char>| #[trigger]
                    self.flushed(k2) == old(self).flushed(k2) + batch_rows_for(seq![bv], k2) by {
                    lemma_batch_rows_one(bv, k2);
                    if k2 != k {
                        assert(self.flushed(k2) == old(self).flushed(k2));
                        assert(old(self).flushed(k2) + Seq::<RowView>::empty() =~= old(
                            self,
                        ).flushed(k2));
                    }
                }
            }
            Some(batch)
        } else {
            proof {
                old(self).lemma_flushed_and_buffered(k);
                self.lemma_flushed_and_buffered(k);
                assert(self.flushed(k) =~= old(self).flushed(k));
                assert forall|k2: Seq<char>| #[trigger]
                    self.flushed(k2) == old(self).flushed(k2) + batch_rows_for(
                        Seq::empty(),
                        k2,
                    ) by {
                    assert(self.flushed(k2) == old(self).flushed(k2));
                    assert(old(self).flushed(k2) + Seq::<RowView>::empty() =~= old(self).flushed(
                        k2,
                    ));
                }
            }
            None
        }
    }

    /// Writes the rows of one reference: one row for each cited identifier,
    /// with its raw match and its provenance. The three lists must have the
    /// same length; if they do not, nothing is written.
    pub fn write_extracted_ref(
        &mut self,
        citing_doi: &str,
        ref_index: u32,
        ref_json: &str,
        raw_matches: &[String],
        cited_ids: &[String],
        provenances: &[Provenance],
    ) -> (r: Result<WriteOutcome, PartitionError>)
        requires
            old(self).wf(),
        ensures
            final(self).wf(),
            final(self).threshold() == old(self).threshold(),
            r is Ok <==> raw_matches@.len() == cited_ids@.len() && cited_ids@.len()
                == provenances@.len(),
            r is Err ==> r == Err::<WriteOutcome, PartitionError>(PartitionError::LengthMismatch)
                && final(self).accepted() == old(self).accepted() && forall|k: Seq<char>|
                final(self).buffered(k) == old(self).buffered(k),
            r is Ok ==> {
                &&& r->Ok_0.rows_written == cited_ids@.len()
                &&& final(self).accepted() == old(self).accepted() + exploded(
                    citing_doi@,
                    ref_index,
                    ref_json@,
                    raw_matches.deep_view(),
                    cited_ids.deep_view(),
                    provenances@,
                )
                &&& forall|j: int|
                    0 <= j < r->Ok_0.batches@.len() ==> (#[trigger] r->Ok_0.batches@[j]).rows@.len()
                        > 0
                &&& handed_out(*old(self), *final(self), r->Ok_0.batches.deep_view())
            },
    {
        let n = cited_ids.len();
        if raw_matches.len() != n || provenances.len() != n {
            return Err(PartitionError::LengthMismatch);
        }
        let mut batches: Vec<FlushBatch> = Vec::new();
        let mut i: usize = 0;
        let ghost rows = exploded(
            citing_doi@,
            ref_index,
            ref_json@,
            raw_matches.deep_view(),
            cited_ids.deep_view(),
            provenances@,
        );
        assert(self.accepted() + rows.take(0) =~= self.accepted());
        proof {
            lemma_handed_out_nothing(*self);
            assert(batches.deep_view() =~= Seq::<BatchView>::empty());
        }
        while i < n
            invariant
                i <= n,
                n == cited_ids@.len(),
                n == raw_matches@.len(),
                n == provenances@.len(),
                self.wf(),
                self.threshold() == old(self).threshold(),
                rows == exploded(
                    citing_doi@,
                    ref_index,
                    ref_json@,
                    raw_matches.deep_view(),
                    cited_ids.deep_view(),
                    provenances@,
                ),
                self.accepted() == old(self).accepted() + rows.take(i as int),
                forall|j: int| 0 <= j < batches@.len() ==> (#[trigger] batches@[j]).rows@.len() > 0,
                handed_out(*old(self), *self, batches.deep_view()),
            decreases n - i,
        {
            let citing = chars_of(citing_doi);
            let json = chars_of(ref_json);
            let row = ExplodedRow {
                citing_doi: string_of(&citing),
                ref_index,
                ref_json: string_of(&json),
                raw_match: raw_matches[i].clone(),
                cited_id: cited_ids[i].clone(),
                provenance: provenances[i],
            };
            assert(row.deep_view() == rows[i as int]) by {
                assert(raw_matches.deep_view()[i as int] == raw_matches@[i as int]@);
                assert(cited_ids.deep_view()[i as int] == cited_ids@[i as int]@);
            }
            let ghost mid = *self;
            let ghost had = batches.deep_view();
            match self.write(row) {
                Some(batch) => {
                    assert(batch.rows@.len() == batch.rows.deep_view().len());
                    batches.push(batch);
                    proof {
                        assert(batches.deep_view() =~= had + seq![batch.deep_view()]);
                        lemma_handed_out_trans(
                            *old(self),
                            mid,
                            *self,
                            had,
                            seq![batch.deep_view()],
                        );
                    }
                },
                None => {
                    proof {
                        assert(batches.deep_view() =~= had + Seq::<BatchView>::empty());
                        lemma_handed_out_trans(*old(self), mid, *self, had, Seq::empty());
                    }
                },
            }
            assert(self.accepted() =~= old(self).accepted() + rows.take(i + 1)) by {
                assert(rows.take(i + 1) =~= rows.take(i as int).push(rows[i as int]));
            }
            i += 1;
        }
        assert(rows.take(n as int) =~= rows);
        Ok(WriteOutcome { rows_written: n, batches })
    }

    /// Empties every buffer that holds rows and hands the rows out, one
    /// batch for each such partition.
    pub fn flush_all(&mut self) -> (batches: Vec<FlushBatch>)
        requires
            old(self).wf(),
        ensures
            final(self).wf(),
            final(self).threshold() == old(self).threshold(),
            final(self).accepted() == old(self).accepted(),
            final(self).partitions() == old(self).partitions(),
            forall|k: Seq<char>| final(self).buffered(k) == Seq::<RowView>::empty(),
            forall|k: Seq<char>| final(self).flushed(k) == routed(old(self).accepted(), k),
            forall|j: int|
                0 <= j < batches@.len() ==> {
                    &&& (#[trigger] batches@[j]).rows.deep_view() == old(self).buffered(
                        batches@[j].partition@,
                    )
                    &&& batches@[j].rows@.len() > 0
                },
            forall|k: Seq<char>|
                old(self).buffered(k).len() > 0 ==> exists|j: int|
                    0 <= j < batches@.len() && (#[trigger] batches@[j]).partition@ == k,
            forall|a: int, b: int|
                0 <= a < b < batches@.len() ==> batches@[a].partition@ != batches@[b].partition@,
            handed_out(*old(self), *final(self), batches.deep_view()),
    {
        let mut batches: Vec<FlushBatch> = Vec::new();
        let ghost owner: Seq<int> = Seq::empty();
        let mut i: usize = 0;
        while i < self.buffers.len()
            invariant
                i <= self.buffers@.len(),
                old(self).wf(),
                self.slots == old(self).slots,
                self.accepted == old(self).accepted,
                self.flush_threshold == old(self).flush_threshold,
                self.buffers@.len() == old(self).buffers@.len(),
                forall|j: int|
                    0 <= j < self.buffers@.len() ==> (#[trigger] self.buffers@[j]).name == old(
                        self,
                    ).buffers@[j].name,
                forall|j: int|
                    0 <= j < i ==> (#[trigger] self.buffers@[j]).rows.deep_view() == Seq::<
                        RowView,
                    >::empty(),
                forall|j: int|
                    i <= j < self.buffers@.len() ==> (#[trigger] self.buffers@[j]) == old(
                        self,
                    ).buffers@[j],
                owner.len() == batches@.len(),
                forall|b: int|
                    0 <= b < batches@.len() ==> {
                        &&& 0 <= #[trigger] owner[b] < i
                        &&& batches@[b].partition@ == old(self).buffers@[owner[b]].name@
                        &&& batches@[b].rows.deep_view() == old(self).buffers@[owner[b]].rows.deep_view()
                        &&& batches@[b].rows@.len() > 0
                    },
                forall|a: int, b: int| 0 <= a < b < owner.len() ==> owner[a] < owner[b],
                forall|j: int|
                    0 <= j < i && old(self).buffers@[j].rows@.len() > 0 ==> exists|b: int|
                        0 <= b < owner.len() && #[trigger] owner[b] == j,
            decreases self.buffers@.len() - i,
        {
            if self.buffers[i].rows.len() > 0 {
                let mut rows: Vec<ExplodedRow> = Vec::new();
                core::mem::swap(&mut self.buffers[i].rows, &mut rows);
                let name = self.buffers[i].name.clone();
                let ghost prev_owner = owner;
                proof {
                    assert(self.buffers@[i as int].rows.deep_view() =~= Seq::<RowView>::empty());
                    owner = owner.push(i as int);
                }
                batches.push(FlushBatch { partition: name, rows });
                proof {
                    assert forall|j: int|
                        0 <= j < i + 1 && old(self).buffers@[j].rows@.len() > 0 implies exists|
                        b: int,
                    |
                        0 <= b < owner.len() && #[trigger] owner[b] == j by {
                        if j < i {
                            let b = choose|b: int|
                                0 <= b < prev_owner.len() && #[trigger] prev_owner[b] == j;
                            assert(owner[b] == j);
                        } else {
                            assert(owner[prev_owner.len() as int] == j);
                        }
                    }
                }
            } else {
                assert(self.buffers@[i as int].rows.deep_view() =~= Seq::<RowView>::empty());
            }
            i += 1;
        }
        proof {
            assert forall|k: Seq<char>| self.buffered(k) == Seq::<RowView>::empty() by {}
            assert forall|k: Seq<char>|
                is_suffix(#[trigger] self.buffered(k), routed(self.accepted@, k)) by {
                let all = routed(self.accepted@, k);
                assert(all.subrange(all.len() as int, all.len() as int) =~= Seq::empty());
            }
            assert forall|j: int| 0 <= j < self.buffers@.len() implies {
                &&& self.slots@.contains_key(#[trigger] self.buffers@[j].name@)
                &&& self.slots@[self.buffers@[j].name@] == j
            } by {
                assert(old(self).slots@.contains_key(old(self).buffers@[j].name@));
            }
            assert forall|k: Seq<char>| #[trigger] self.slots@.contains_key(k) implies {
                &&& self.slots@[k] < self.buffers@.len()
                &&& self.buffers@[self.slots@[k] as int].name@ == k
            } by {
                assert(old(self).slots@.contains_key(k));
            }
            assert(self.wf());
            assert forall|k: Seq<char>| self.flushed(k) == routed(old(self).accepted(), k) by {
                self.lemma_flushed_and_buffered(k);
            }
            assert forall|j: int| 0 <= j < batches@.len() implies {
                &&& (#[trigger] batches@[j]).rows.deep_view() == old(self).buffered(
                    batches@[j].partition@,
                )
                &&& batches@[j].rows@.len() > 0
            } by {
                let o = owner[j];
                assert(old(self).slots@.contains_key(old(self).buffers@[o].name@));
            }
            assert forall|k: Seq<char>| old(self).buffered(k).len() > 0 implies exists|j: int|
                0 <= j < batches@.len() && (#[trigger] batches@[j]).partition@ == k by {
                let s = old(self).slots@[k] as int;
                assert(old(self).buffers@[s].rows@.len() == old(self).buffers@[s].rows.deep_view().len());
                let b = choose|b: int| 0 <= b < owner.len() && #[trigger] owner[b] == s;
                assert(batches@[b].partition@ == k);
            }
            assert forall|a: int, b: int| 0 <= a < b < batches@.len() implies batches@[a].partition@
                != batches@[b].partition@ by {
                let oa = owner[a];
                let ob = owner[b];
                assert(old(self).slots@.contains_key(old(self).buffers@[oa].name@));
                assert(old(self).slots@.contains_key(old(self).buffers@[ob].name@));
            }
            let bs = batches.deep_view();
            assert forall|a: int, b: int| 0 <= a < b < bs.len() implies bs[a].partition
                != bs[b].partition by {
                assert(bs[a] == batches@[a].deep_view());
                assert(bs[b] == batches@[b].deep_view());
            }
            assert forall|k: Seq<char>| #[trigger]
                self.flushed(k) == old(self).flushed(k) + batch_rows_for(bs, k) by {
                lemma_batch_rows_single(bs, k);
                old(self).lemma_flushed_and_buffered(k);
                if old(self).buffered(k).len() > 0 {
                    let j = choose|j: int|
                        0 <= j < batches@.len() && (#[trigger] batches@[j]).partition@ == k;
                    assert(bs[j] == batches@[j].deep_view());
                    assert(bs[j].partition == k);
                } else {
                    assert forall|j: int| 0 <= j < bs.len() implies (#[trigger] bs[j]).partition
                        != k by {
                        assert(bs[j] == batches@[j].deep_view());
                        assert(batches@[j].rows@.len() == batches@[j].rows.deep_view().len());
                    }
                    assert(old(self).buffered(k) =~= Seq::<RowView>::empty());
                    assert(old(self).flushed(k) + Seq::<RowView>::empty() =~= old(self).flushed(
                        k,
                    ));
                }
            }
        }
        batches
    }

    /// The number of partitions that have been written to.
    pub fn partition_count(&self) -> (n: usize)
        ensures
            n == self.partitions().len(),
    {
        broadcast use vstd::hash_map::group_hash_map_axioms;
        self.slots.len()
    }
}

/// Between `before` and `after`, the writer handed out exactly the rows of
/// `batches`: for each partition, what it has handed out in all grew by the
/// rows that the batches hold for it.
pub open spec fn handed_out(
    before: PartitionWriter,
    after: PartitionWriter,
    batches: Seq<BatchView>,
) -> bool {
    forall|k: Seq<char>| #[trigger]
        after.flushed(k) == before.flushed(k) + batch_rows_for(batches, k)
}

/// Handing out twice is handing out the two lists of batches, one after the
/// other.
pub proof fn lemma_handed_out_trans(
    a: PartitionWriter,
    b: PartitionWriter,
    c: PartitionWriter,
    x: Seq<BatchView>,
    y: Seq<BatchView>,
)
    requires
        handed_out(a, b, x),
        handed_out(b, c, y),
    ensures
        handed_out(a, c, x + y),
{
    assert forall|k: Seq<char>| #[trigger]
        c.flushed(k) == a.flushed(k) + batch_rows_for(x + y, k) by {
        lemma_batch_rows_concat(x, y, k);
        assert(b.flushed(k) == a.flushed(k) + batch_rows_for(x, k));
        assert(c.flushed(k) == b.flushed(k) + batch_rows_for(y, k));
        assert(a.flushed(k) + (batch_rows_for(x, k) + batch_rows_for(y, k)) =~= (a.flushed(k)
            + batch_rows_for(x, k)) + batch_rows_for(y, k));
    }
}

/// Nothing was handed out when nothing changed.
pub proof fn lemma_handed_out_nothing(a: PartitionWriter)
    ensures
        handed_out(a, a, Seq::empty()),
{
    assert forall|k: Seq<char>| #[trigger]
        a.flushed(k) == a.flushed(k) + batch_rows_for(Seq::empty(), k) by {
        assert(a.flushed(k) + Seq::<RowView>::empty() =~= a.flushed(k));
    }
}

/// Pushing one row onto a suffix and onto the whole keeps the suffix.
proof fn lemma_suffix_push(tail: Seq<RowView>, whole: Seq<RowView>, r: RowView)
    requires
        is_suffix(tail, whole),
    ensures
        is_suffix(tail.push(r), whole.push(r)),
{
    let w = whole.push(r);
    let t = tail.push(r);
    assert(w.subrange(w.len() - t.len(), w.len() as int) =~= t) by {
        assert forall|j: int| 0 <= j < t.len() implies w.subrange(
            w.len() - t.len(),
            w.len() as int,
        )[j] == t[j] by {
            if j < tail.len() {
                assert(whole.subrange(whole.len() - tail.len(), whole.len() as int)[j] == tail[j]);
            }
        }
    }
}

/// Partitioning is complete: once no row waits in a buffer, the rows that
/// were handed out for a partition are the rows that were written for it, in
/// the order in which they were written; so every row that was written has
/// been handed out for the partition of its key as often as it was written,
/// and for no other partition.
pub proof fn lemma_partitioning_complete(w: PartitionWriter, k: Seq<char>, r: RowView)
    requires
        w.wf(),
        forall|j: Seq<char>| w.buffered(j).len() == 0,
    ensures
        w.flushed(k) == routed(w.accepted(), k),
        w.flushed(k).to_multiset().count(r) == (if partition_key_spec(r.cited_id) == k {
            w.accepted().to_multiset().count(r)
        } else {
            0
        }),
{
    w.lemma_flushed_and_buffered(k);
    assert(w.buffered(k).len() == 0);
    lemma_routed_counts(w.accepted(), k, r);
}

/// Routing loses nothing and doubles nothing: a row occurs in the partition
/// of its key as often as among the rows written, and in no other partition.
pub proof fn lemma_routed_counts(rows: Seq<RowView>, k: Seq<char>, r: RowView)
    ensures
        routed(rows, k).to_multiset().count(r) == (if partition_key_spec(r.cited_id) == k {
            rows.to_multiset().count(r)
        } else {
            0
        }),
    decreases rows.len(),
{
    broadcast use vstd::seq_lib::group_to_multiset_ensures;
    if rows.len() == 0 {
    } else {
        lemma_routed_counts(rows.drop_last(), k, r);
        assert(rows.drop_last().push(rows.last()) =~= rows);
    }
}

} // verus!
