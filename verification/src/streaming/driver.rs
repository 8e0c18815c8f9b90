//! The streaming driver: from one archive entry to the rows that are written.

use crate::cli::Source;
use crate::commands::pipeline::{
    capped_sum, includes_citation, should_include_citation, ExtractionStats,
};
use crate::common::vecs::reversed;
use crate::extract::reference::{
    extract_reference_ids, reference_ids, IdentifierView, Reference, ReferenceView,
};
use crate::index::{inserted, DoiIndex, DoiIndexView};
use crate::json::{
    array_member, items_view, json_form, json_parsed, json_serialize, json_strings,
    list_member_spec, parse_json, string_member, string_member_spec, text_under,
};
use crate::streaming::checkpoint::Checkpoint;
use crate::streaming::partition_writer::{
    handed_out, lemma_handed_out_nothing, lemma_handed_out_trans, BatchView, ExplodedRow,
    FlushBatch, PartitionWriter, RowView,
};
use crate::text::{chars_of, ends_with, lower, lowercase, prefix_ends_with, string_of};
use vstd::prelude::*;

verus! {

/// The identifiers of `ids` that are not the citing work itself.
pub open spec fn kept_ids(ids: Seq<IdentifierView>, citing: Seq<char>) -> Seq<IdentifierView>
    decreases ids.len(),
{
    if ids.len() == 0 {
        Seq::empty()
    } else {
        let rest = kept_ids(ids.drop_last(), citing);
        if includes_citation(citing, ids.last().id) {
            rest.push(ids.last())
        } else {
            rest
        }
    }
}

/// One row for each identifier.
pub open spec fn rows_of(
    citing: Seq<char>,
    ref_index: u32,
    json: Seq<char>,
    ids: Seq<IdentifierView>,
) -> Seq<RowView> {
    Seq::new(
        ids.len(),
        |i: int|
            RowView {
                citing_doi: citing,
                ref_index,
                ref_json: json,
                raw_match: ids[i].raw,
                cited_id: ids[i].id,
                provenance: ids[i].provenance,
            },
    )
}

/// The rows that one reference of the work `citing` explodes to: one for
/// each identifier that it cites, self-citations left out.
pub open spec fn reference_rows(
    citing: Seq<char>,
    ref_index: u32,
    r: ReferenceView,
    source: Source,
) -> Seq<RowView> {
    rows_of(citing, ref_index, r.json, kept_ids(reference_ids(r, source), citing))
}

/// The rows of the references of one work, reference by reference.
pub open spec fn item_rows(citing: Seq<char>, refs: Seq<ReferenceView>, source: Source) -> Seq<
    RowView,
>
    decreases refs.len(),
{
    if refs.len() == 0 {
        Seq::empty()
    } else {
        item_rows(citing, refs.drop_last(), source) + reference_rows(
            citing,
            (refs.len() - 1) as u32,
            refs.last(),
            source,
        )
    }
}

/// The number of references that give at least one row.
pub open spec fn refs_with_rows(citing: Seq<char>, refs: Seq<ReferenceView>, source: Source) -> nat
    decreases refs.len(),
{
    if refs.len() == 0 {
        0
    } else {
        let rest = refs_with_rows(citing, refs.drop_last(), source);
        if reference_rows(citing, (refs.len() - 1) as u32, refs.last(), source).len() > 0 {
            rest + 1
        } else {
            rest
        }
    }
}

/// No row of `rows` cites the work that it comes from.
pub open spec fn no_self_citation(rows: Seq<RowView>) -> bool {
    forall|i: int|
        0 <= i < rows.len() ==> includes_citation(
            (#[trigger] rows[i]).citing_doi,
            rows[i].cited_id,
        )
}

/// Kept identifiers are none of them the citing work.
pub proof fn lemma_kept_ids_exclude_self(ids: Seq<IdentifierView>, citing: Seq<char>)
    ensures
        forall|i: int|
            0 <= i < kept_ids(ids, citing).len() ==> includes_citation(
                citing,
                (#[trigger] kept_ids(ids, citing)[i]).id,
            ),
    decreases ids.len(),
{
    if ids.len() > 0 {
        lemma_kept_ids_exclude_self(ids.drop_last(), citing);
    }
}

/// The rows of a reference never cite the work that they come from.
pub proof fn lemma_reference_rows_exclude_self(
    citing: Seq<char>,
    ref_index: u32,
    r: ReferenceView,
    source: Source,
)
    ensures
        no_self_citation(reference_rows(citing, ref_index, r, source)),
{
    lemma_kept_ids_exclude_self(reference_ids(r, source), citing);
}

/// The rows of a work never cite the work itself.
pub proof fn lemma_item_rows_exclude_self(
    citing: Seq<char>,
    refs: Seq<ReferenceView>,
    source: Source,
)
    ensures
        no_self_citation(item_rows(citing, refs, source)),
    decreases refs.len(),
{
    if refs.len() > 0 {
        lemma_item_rows_exclude_self(citing, refs.drop_last(), source);
        lemma_reference_rows_exclude_self(citing, (refs.len() - 1) as u32, refs.last(), source);
    }
}

/// The rows that one reference explodes to. No row cites the citing work
/// itself, whatever the case of the two identifiers.
pub fn process_reference(
    citing_doi: &str,
    ref_index: u32,
    reference: &Reference,
    source: Source,
) -> (rows: Vec<ExplodedRow>)
    ensures
        rows.deep_view() == reference_rows(citing_doi@, ref_index, reference.deep_view(), source),
        no_self_citation(rows.deep_view()),
{
    let ids = extract_reference_ids(reference, source);
    let mut rows: Vec<ExplodedRow> = Vec::new();
    let mut i: usize = 0;
    let ghost all = ids.deep_view();
    assert(all.take(0) =~= Seq::<IdentifierView>::empty());
    assert(rows.deep_view() =~= Seq::<RowView>::empty());
    while i < ids.len()
        invariant
            i <= ids.len(),
            all == ids.deep_view(),
            rows.deep_view() == rows_of(
                citing_doi@,
                ref_index,
                reference.json@,
                kept_ids(all.take(i as int), citing_doi@),
            ),
        decreases ids.len() - i,
    {
        let ghost before = rows.deep_view();
        let ghost kept_before = kept_ids(all.take(i as int), citing_doi@);
        assert(all.take(i + 1).drop_last() =~= all.take(i as int));
        assert(all.take(i + 1).last() == ids@[i as int].deep_view());
        if should_include_citation(citing_doi, ids[i].id.as_str()) {
            let citing = chars_of(citing_doi);
            let row = ExplodedRow {
                citing_doi: string_of(&citing),
                ref_index,
                ref_json: reference.json.clone(),
                raw_match: ids[i].raw.clone(),
                cited_id: ids[i].id.clone(),
                provenance: ids[i].provenance,
            };
            rows.push(row);
            assert(rows.deep_view() =~= before.push(row.deep_view()));
            assert(rows.deep_view() =~= rows_of(
                citing_doi@,
                ref_index,
                reference.json@,
                kept_before.push(ids@[i as int].deep_view()),
            ));
        }
        i += 1;
    }
    assert(all.take(ids.len() as int) =~= all);
    proof {
        lemma_reference_rows_exclude_self(citing_doi@, ref_index, reference.deep_view(), source);
    }
    rows
}

/// Writes the rows of the references of one work. At most `u32::MAX + 1`
/// references can be numbered.
pub fn write_item_references(
    citing_doi: &str,
    references: &Vec<Reference>,
    source: Source,
    writer: &mut PartitionWriter,
    stats: &mut ExtractionStats,
) -> (batches: Vec<FlushBatch>)
    requires
        old(writer).wf(),
        references.len() <= u32::MAX as usize + 1,
    ensures
        final(writer).wf(),
        final(writer).threshold() == old(writer).threshold(),
        final(writer).accepted() == old(writer).accepted() + item_rows(
            citing_doi@,
            references.deep_view(),
            source,
        ),
        no_self_citation(item_rows(citing_doi@, references.deep_view(), source)),
        handed_out(*old(writer), *final(writer), batches.deep_view()),
        final(stats).total_matches == capped_sum(
            old(stats).total_matches,
            item_rows(citing_doi@, references.deep_view(), source).len(),
        ),
        final(stats).refs_with_matches == capped_sum(
            old(stats).refs_with_matches,
            refs_with_rows(citing_doi@, references.deep_view(), source),
        ),
        final(stats).files_processed == old(stats).files_processed,
        final(stats).items_processed == old(stats).items_processed,
        final(stats).crossref_dois_indexed == old(stats).crossref_dois_indexed,
{
    let mut batches: Vec<FlushBatch> = Vec::new();
    let mut i: usize = 0;
    let ghost refs = references.deep_view();
    assert(refs.take(0) =~= Seq::<ReferenceView>::empty());
    assert(writer.accepted() + item_rows(citing_doi@, refs.take(0), source)
        =~= writer.accepted());
    proof {
        lemma_handed_out_nothing(*writer);
        assert(batches.deep_view() =~= Seq::<BatchView>::empty());
    }
    while i < references.len()
        invariant
            handed_out(*old(writer), *writer, batches.deep_view()),
            i <= references.len(),
            references.len() <= u32::MAX as usize + 1,
            refs == references.deep_view(),
            writer.wf(),
            writer.threshold() == old(writer).threshold(),
            writer.accepted() == old(writer).accepted() + item_rows(
                citing_doi@,
                refs.take(i as int),
                source,
            ),
            stats.total_matches == capped_sum(
                old(stats).total_matches,
                item_rows(citing_doi@, refs.take(i as int), source).len(),
            ),
            stats.refs_with_matches == capped_sum(
                old(stats).refs_with_matches,
                refs_with_rows(citing_doi@, refs.take(i as int), source),
            ),
            stats.files_processed == old(stats).files_processed,
            stats.items_processed == old(stats).items_processed,
            stats.crossref_dois_indexed == old(stats).crossref_dois_indexed,
        decreases references.len() - i,
    {
        let ghost done = item_rows(citing_doi@, refs.take(i as int), source);
        assert(refs.take(i + 1).drop_last() =~= refs.take(i as int));
        assert(refs.take(i + 1).last() == references@[i as int].deep_view());
        let rows = process_reference(citing_doi, i as u32, &references[i], source);
        let ghost these = rows.deep_view();
        assert(item_rows(citing_doi@, refs.take(i + 1), source) == done + these);
        if rows.len() > 0 {
            stats.refs_with_matches = stats.refs_with_matches.saturating_add(1);
            stats.total_matches = stats.total_matches.saturating_add(rows.len());
        }
        let mut rev = reversed(rows);
        assert(rev.deep_view().reverse() =~= these);
        let ghost written: Seq<RowView> = Seq::empty();
        assert(writer.accepted() + written =~= writer.accepted());
        let ghost start = writer.accepted();
        while rev.len() > 0
            invariant
                writer.wf(),
                writer.threshold() == old(writer).threshold(),
                written + rev.deep_view().reverse() == these,
                writer.accepted() == start + written,
                handed_out(*old(writer), *writer, batches.deep_view()),
            decreases rev.len(),
        {
            let ghost vb = rev.deep_view();
            let row = rev.pop().unwrap();
            let ghost rv = row.deep_view();
            let ghost mid = *writer;
            let ghost had = batches.deep_view();
            match writer.write(row) {
                Some(batch) => {
                    batches.push(batch);
                    proof {
                        assert(batches.deep_view() =~= had + seq![batch.deep_view()]);
                        lemma_handed_out_trans(
                            *old(writer),
                            mid,
                            *writer,
                            had,
                            seq![batch.deep_view()],
                        );
                    }
                },
                None => {
                    proof {
                        assert(batches.deep_view() =~= had + Seq::<BatchView>::empty());
                        lemma_handed_out_trans(*old(writer), mid, *writer, had, Seq::empty());
                    }
                },
            }
            proof {
                assert(rev.deep_view() =~= vb.drop_last());
                assert(vb.reverse() =~= seq![rv] + rev.deep_view().reverse());
                let next = written.push(rv);
                assert(next + rev.deep_view().reverse() =~= written + vb.reverse());
                assert(start + next =~= (start + written).push(rv));
                written = next;
            }
        }
        assert(written =~= these);
        assert(writer.accepted() =~= old(writer).accepted() + (done + these));
        i += 1;
    }
    assert(refs.take(references.len() as int) =~= refs);
    proof {
        lemma_item_rows_exclude_self(citing_doi@, refs, source);
    }
    batches
}

/// `after` is `before` with rows appended, none of which cites the work that
/// it comes from.
pub open spec fn grew_cleanly(before: Seq<RowView>, after: Seq<RowView>) -> bool {
    &&& before.len() <= after.len()
    &&& after.subrange(0, before.len() as int) == before
    &&& no_self_citation(after.subrange(before.len() as int, after.len() as int))
}

/// Appending clean rows keeps the list clean.
pub proof fn lemma_grew_cleanly_by(before: Seq<RowView>, rows: Seq<RowView>)
    requires
        no_self_citation(rows),
    ensures
        grew_cleanly(before, before + rows),
{
    let after = before + rows;
    assert(after.subrange(0, before.len() as int) =~= before);
    assert(after.subrange(before.len() as int, after.len() as int) =~= rows);
}

/// Growing cleanly twice is growing cleanly.
pub proof fn lemma_grew_cleanly_trans(a: Seq<RowView>, b: Seq<RowView>, c: Seq<RowView>)
    requires
        grew_cleanly(a, b),
        grew_cleanly(b, c),
    ensures
        grew_cleanly(a, c),
{
    assert(c.subrange(0, a.len() as int) =~= b.subrange(0, a.len() as int)) by {
        assert forall|i: int| 0 <= i < a.len() implies c[i] == b[i] by {
            assert(c.subrange(0, b.len() as int)[i] == b[i]);
        }
    }
    let tail = c.subrange(a.len() as int, c.len() as int);
    assert forall|i: int| 0 <= i < tail.len() implies includes_citation(
        (#[trigger] tail[i]).citing_doi,
        tail[i].cited_id,
    ) by {
        let j = i + a.len();
        if j < b.len() {
            assert(c.subrange(0, b.len() as int)[j] == b[j]);
            assert(b.subrange(a.len() as int, b.len() as int)[i] == b[j]);
        } else {
            assert(c.subrange(b.len() as int, c.len() as int)[j - b.len()] == c[j]);
        }
    }
}

/// What became of one archive entry.
#[derive(Debug, Clone, Copy, PartialEq, Eq, Structural)]
pub enum EntryOutcome {
    /// The entry is not valid JSON; it was skipped.
    Unparsable,
    /// The entry has no `items` array; it was skipped.
    NoItems,
    /// The items of the entry were processed.
    Processed,
}

/// Whether an archive entry is to be processed: its path ends in `.json`,
/// and its ordinal lies beyond the entries that the checkpoint records.
pub open spec fn entry_is_due(path: Seq<char>, ordinal: usize, processed: usize) -> bool {
    ends_with(path, ".json"@) && ordinal > processed
}

/// Whether the path of an archive entry ends in `.json`.
pub fn is_json_entry(path: &str) -> (r: bool)
    ensures
        r == ends_with(path@, ".json"@),
{
    let v = chars_of(path);
    let suffix = chars_of(".json");
    assert(v@.subrange(0, v.len() as int) =~= v@);
    prefix_ends_with(&v, v.len(), &suffix)
}

/// Whether an archive entry is to be processed.
pub fn should_process_entry(path: &str, ordinal: usize, checkpoint: &Checkpoint) -> (r: bool)
    ensures
        r == entry_is_due(path@, ordinal, checkpoint.tar_entries_processed),
{
    is_json_entry(path) && ordinal > checkpoint.tar_entries_processed
}

/// What is done with an archive entry.
#[derive(Debug, Clone, Copy, PartialEq, Eq, Structural)]
pub enum EntryAction {
    /// The entry is processed: its rows are written and counted.
    Process,
    /// The entry was dealt with by an earlier run; it is read again only to
    /// offer its DOIs to the index, which is not kept between runs.
    Replay,
    /// The entry is passed over.
    Skip,
}

/// Decides what is done with an archive entry: it is processed when it is
/// due and the run is not for the index only; otherwise it is replayed when
/// the index is being built and the entry is a JSON file; otherwise it is
/// skipped.
pub fn entry_action(
    path: &str,
    ordinal: usize,
    checkpoint: &Checkpoint,
    build_index: bool,
    index_only: bool,
) -> (a: EntryAction)
    ensures
        a == (if !index_only && entry_is_due(path@, ordinal, checkpoint.tar_entries_processed) {
            EntryAction::Process
        } else if build_index && ends_with(path@, ".json"@) {
            EntryAction::Replay
        } else {
            EntryAction::Skip
        }),
{
    if !index_only && should_process_entry(path, ordinal, checkpoint) {
        EntryAction::Process
    } else if build_index && is_json_entry(path) {
        EntryAction::Replay
    } else {
        EntryAction::Skip
    }
}

/// Whether a checkpoint is to be written after `entries` entries, when one
/// is written every `interval` entries. An interval of 0 asks for none.
pub fn checkpoint_due(entries: usize, interval: usize) -> (r: bool)
    ensures
        r == (interval > 0 && entries % interval == 0),
{
    interval > 0 && entries % interval == 0
}

/// The reference that a JSON value stands for: its string members `DOI`,
/// `unstructured`, `article-title`, `journal-title`, `URL` and
/// `doi-asserted-by`, each absent where the value has no string member of
/// that name, and the value as it serializes.
pub open spec fn reference_of(value: serde_json::Value) -> ReferenceView {
    reference_from(json_strings(value), json_form(value))
}

/// The reference that string members and a serialized form stand for.
pub open spec fn reference_from(strings: Map<Seq<char>, Seq<char>>, form: Seq<char>) -> ReferenceView {
    ReferenceView {
        doi: text_under(strings, "DOI"@),
        unstructured: text_under(strings, "unstructured"@),
        article_title: text_under(strings, "article-title"@),
        journal_title: text_under(strings, "journal-title"@),
        url: text_under(strings, "URL"@),
        doi_asserted_by: text_under(strings, "doi-asserted-by"@),
        json: form,
    }
}

/// Reads the recognized fields of a reference entry, and serializes it.
pub fn reference_from_json(value: &serde_json::Value) -> (r: Reference)
    ensures
        r.deep_view() == reference_of(*value),
{
    Reference {
        doi: string_member(value, "DOI"),
        unstructured: string_member(value, "unstructured"),
        article_title: string_member(value, "article-title"),
        journal_title: string_member(value, "journal-title"),
        url: string_member(value, "URL"),
        doi_asserted_by: string_member(value, "doi-asserted-by"),
        json: json_serialize(value),
    }
}

fn keep_batches(all: &mut Vec<FlushBatch>, more: Vec<FlushBatch>)
    ensures
        final(all).deep_view() == old(all).deep_view() + more.deep_view(),
{
    let ghost added = more.deep_view();
    let mut rev = reversed(more);
    let ghost done: Seq<BatchView> = Seq::empty();
    assert(all.deep_view() + done =~= all.deep_view());
    assert(done + rev.deep_view().reverse() =~= added);
    while rev.len() > 0
        invariant
            done + rev.deep_view().reverse() == added,
            all.deep_view() == old(all).deep_view() + done,
        decreases rev.len(),
    {
        let ghost rb = rev.deep_view();
        let ghost ab = all.deep_view();
        let b = rev.pop().unwrap();
        let ghost bv = b.deep_view();
        all.push(b);
        proof {
            assert(rev.deep_view() =~= rb.drop_last());
            assert(rb.reverse() =~= seq![bv] + rev.deep_view().reverse());
            let next = done.push(bv);
            assert(next + rev.deep_view().reverse() =~= done + rb.reverse());
            assert(all.deep_view() =~= ab.push(bv));
            assert(all.deep_view() =~= old(all).deep_view() + next);
            done = next;
        }
    }
    assert(rev.deep_view().reverse() =~= Seq::<BatchView>::empty());
    assert(done =~= added);
}

/// The references of a record: the elements of its array member
/// `reference`, each as the reference that it stands for; `None` when the
/// record has no such member.
pub open spec fn record_references(record: serde_json::Value) -> Option<Seq<ReferenceView>> {
    match list_member_spec(record, "reference"@) {
        Some(items) => Some(
            Seq::new(items.len(), |i: int| reference_from(items[i].0, items[i].1)),
        ),
        None => None,
    }
}

/// The references that can be numbered: the first `u32::MAX + 1` of them.
pub open spec fn numbered(refs: Seq<ReferenceView>) -> Seq<ReferenceView> {
    if refs.len() <= u32::MAX + 1 {
        refs
    } else {
        refs.take(u32::MAX + 1)
    }
}

/// The references of an item that are looked at: those of its array member
/// `reference` that can be numbered; none when it has no such member.
pub open spec fn item_references(item: serde_json::Value) -> Seq<ReferenceView> {
    match record_references(item) {
        Some(refs) => numbered(refs),
        None => Seq::empty(),
    }
}

/// The rows that an item gives: none when it has no string member `DOI`;
/// otherwise the rows of its references, for its DOI in lowercase.
pub open spec fn rows_of_item(item: serde_json::Value, source: Source) -> Seq<RowView> {
    match string_member_spec(item, "DOI"@) {
        Some(doi) => item_rows(lower(doi), item_references(item), source),
        None => Seq::empty(),
    }
}

/// The index after an item: when the index is being built and the item has
/// a DOI, the DOI is offered to it in lowercase; otherwise it is unchanged.
pub open spec fn index_after_item(
    v: DoiIndexView,
    item: serde_json::Value,
    build_index: bool,
) -> DoiIndexView {
    match string_member_spec(item, "DOI"@) {
        Some(doi) => if build_index {
            inserted(v, lower(doi))
        } else {
            v
        },
        None => v,
    }
}

/// The counters after an item: one more item; and when it has a DOI, the
/// references that gave a row, the rows that were written, and the DOI if it
/// was offered to the index.
pub open spec fn stats_after_item(
    stats: ExtractionStats,
    item: serde_json::Value,
    source: Source,
    build_index: bool,
) -> ExtractionStats {
    match string_member_spec(item, "DOI"@) {
        Some(doi) => ExtractionStats {
            files_processed: stats.files_processed,
            items_processed: capped_sum(stats.items_processed, 1),
            refs_with_matches: capped_sum(
                stats.refs_with_matches,
                refs_with_rows(lower(doi), item_references(item), source),
            ),
            total_matches: capped_sum(stats.total_matches, rows_of_item(item, source).len()),
            crossref_dois_indexed: capped_sum(
                stats.crossref_dois_indexed,
                if build_index {
                    1
                } else {
                    0
                },
            ),
        },
        None => ExtractionStats {
            files_processed: stats.files_processed,
            items_processed: capped_sum(stats.items_processed, 1),
            refs_with_matches: stats.refs_with_matches,
            total_matches: stats.total_matches,
            crossref_dois_indexed: stats.crossref_dois_indexed,
        },
    }
}

/// The rows that the items give, item by item.
pub open spec fn rows_of_items(items: Seq<serde_json::Value>, source: Source) -> Seq<RowView>
    decreases items.len(),
{
    if items.len() == 0 {
        Seq::empty()
    } else {
        rows_of_items(items.drop_last(), source) + rows_of_item(items.last(), source)
    }
}

/// The index after the items, item by item.
pub open spec fn index_after_items(
    v: DoiIndexView,
    items: Seq<serde_json::Value>,
    build_index: bool,
) -> DoiIndexView
    decreases items.len(),
{
    if items.len() == 0 {
        v
    } else {
        index_after_item(index_after_items(v, items.drop_last(), build_index), items.last(), build_index)
    }
}

/// The counters after the items, item by item.
pub open spec fn stats_after_items(
    stats: ExtractionStats,
    items: Seq<serde_json::Value>,
    source: Source,
    build_index: bool,
) -> ExtractionStats
    decreases items.len(),
{
    if items.len() == 0 {
        stats
    } else {
        stats_after_item(
            stats_after_items(stats, items.drop_last(), source, build_index),
            items.last(),
            source,
            build_index,
        )
    }
}

/// The counters after one more file.
pub open spec fn file_counted(stats: ExtractionStats) -> ExtractionStats {
    ExtractionStats {
        files_processed: capped_sum(stats.files_processed, 1),
        items_processed: stats.items_processed,
        refs_with_matches: stats.refs_with_matches,
        total_matches: stats.total_matches,
        crossref_dois_indexed: stats.crossref_dois_indexed,
    }
}

/// The rows of an item never cite the item itself.
pub proof fn lemma_rows_of_item_exclude_self(item: serde_json::Value, source: Source)
    ensures
        no_self_citation(rows_of_item(item, source)),
{
    match string_member_spec(item, "DOI"@) {
        Some(doi) => {
            lemma_item_rows_exclude_self(lower(doi), item_references(item), source);
        },
        None => {},
    }
}

/// No row that items give cites the work that it comes from, and the count
/// of matches grows by the number of rows: after the items it is the count
/// before plus the number of their rows (or the largest `usize`, if that is
/// passed).
pub proof fn lemma_rows_of_items(
    stats: ExtractionStats,
    items: Seq<serde_json::Value>,
    source: Source,
    build_index: bool,
)
    ensures
        no_self_citation(rows_of_items(items, source)),
        stats_after_items(stats, items, source, build_index).total_matches == capped_sum(
            stats.total_matches,
            rows_of_items(items, source).len(),
        ),
        stats_after_items(stats, items, source, build_index).items_processed == capped_sum(
            stats.items_processed,
            items.len(),
        ),
        stats_after_items(stats, items, source, build_index).files_processed
            == stats.files_processed,
    decreases items.len(),
{
    if items.len() > 0 {
        lemma_rows_of_items(stats, items.drop_last(), source, build_index);
        lemma_rows_of_item_exclude_self(items.last(), source);
        let before = rows_of_items(items.drop_last(), source);
        let these = rows_of_item(items.last(), source);
        let all = rows_of_items(items, source);
        assert(all == before + these);
        assert forall|i: int| 0 <= i < all.len() implies includes_citation(
            (#[trigger] all[i]).citing_doi,
            all[i].cited_id,
        ) by {
            if i < before.len() {
                assert(all[i] == before[i]);
            } else {
                assert(all[i] == these[i - before.len()]);
            }
        }
    }
}

/// Processes one item of an archive entry: an item without a `DOI` string is
/// counted and skipped; otherwise its DOI is lowercased, offered to the
/// index when the index is being built, and the rows of its references are
/// written. The rows that are written never cite the work that they come
/// from.
pub fn process_item(
    item: &serde_json::Value,
    source: Source,
    build_index: bool,
    index: &mut DoiIndex,
    writer: &mut PartitionWriter,
    stats: &mut ExtractionStats,
) -> (batches: Vec<FlushBatch>)
    requires
        old(index).wf(),
        old(writer).wf(),
    ensures
        final(index).wf(),
        final(writer).wf(),
        final(writer).threshold() == old(writer).threshold(),
        final(writer).accepted() == old(writer).accepted() + rows_of_item(*item, source),
        no_self_citation(rows_of_item(*item, source)),
        final(index)@ == index_after_item(old(index)@, *item, build_index),
        *final(stats) == stats_after_item(*old(stats), *item, source, build_index),
        grew_cleanly(old(writer).accepted(), final(writer).accepted()),
        handed_out(*old(writer), *final(writer), batches.deep_view()),
        !build_index ==> final(index)@ == old(index)@,
        final(stats).items_processed == capped_sum(old(stats).items_processed, 1),
        final(stats).files_processed == old(stats).files_processed,
{
    stats.items_processed = stats.items_processed.saturating_add(1);
    proof {
        lemma_grew_cleanly_by(writer.accepted(), Seq::empty());
        assert(writer.accepted() + Seq::<RowView>::empty() =~= writer.accepted());
        lemma_handed_out_nothing(*writer);
        lemma_rows_of_item_exclude_self(*item, source);
    }
    let work_doi = match string_member(item, "DOI") {
        Some(doi) => lowercase(doi.as_str()),
        None => {
            let none: Vec<FlushBatch> = Vec::new();
            assert(none.deep_view() =~= Seq::<BatchView>::empty());
            return none;
        },
    };
    if build_index {
        index.insert(work_doi.as_str());
        stats.crossref_dois_indexed = stats.crossref_dois_indexed.saturating_add(1);
    }
    match array_member(item, "reference") {
        Some(values) => {
            let mut references: Vec<Reference> = Vec::new();
            let mut i: usize = 0;
            assert(references.deep_view() =~= Seq::<ReferenceView>::empty());
            while i < values.len() && i <= u32::MAX as usize
                invariant
                    i <= values.len(),
                    references@.len() == i,
                    references.deep_view().len() == i,
                    i <= u32::MAX as usize + 1,
                    forall|j: int|
                        0 <= j < i ==> #[trigger] references.deep_view()[j] == reference_of(
                            values@[j],
                        ),
                decreases values.len() - i,
            {
                let ghost before = references.deep_view();
                let reference = reference_from_json(&values[i]);
                references.push(reference);
                assert(references.deep_view() =~= before.push(reference.deep_view()));
                i += 1;
            }
            proof {
                let items = items_view(values@);
                let refs = record_references(*item)->0;
                assert(refs =~= Seq::new(
                    items.len(),
                    |i: int| reference_from(items[i].0, items[i].1),
                ));
                assert(references.deep_view() =~= numbered(refs));
            }
            let batches = write_item_references(
                work_doi.as_str(),
                &references,
                source,
                writer,
                stats,
            );
            proof {
                lemma_grew_cleanly_by(
                    old(writer).accepted(),
                    item_rows(work_doi@, references.deep_view(), source),
                );
            }
            batches
        },
        None => {
            let none: Vec<FlushBatch> = Vec::new();
            proof {
                assert(none.deep_view() =~= Seq::<BatchView>::empty());
                assert(item_references(*item) =~= Seq::<ReferenceView>::empty());
                assert(writer.accepted() + rows_of_item(*item, source) =~= writer.accepted());
            }
            none
        },
    }
}

/// Processes the items of an archive entry, one after the other.
pub fn process_items(
    items: &Vec<serde_json::Value>,
    source: Source,
    build_index: bool,
    index: &mut DoiIndex,
    writer: &mut PartitionWriter,
    stats: &mut ExtractionStats,
) -> (batches: Vec<FlushBatch>)
    requires
        old(index).wf(),
        old(writer).wf(),
    ensures
        final(index).wf(),
        final(writer).wf(),
        final(writer).threshold() == old(writer).threshold(),
        final(writer).accepted() == old(writer).accepted() + rows_of_items(items@, source),
        no_self_citation(rows_of_items(items@, source)),
        final(index)@ == index_after_items(old(index)@, items@, build_index),
        *final(stats) == stats_after_items(*old(stats), items@, source, build_index),
        final(stats).total_matches == capped_sum(
            old(stats).total_matches,
            rows_of_items(items@, source).len(),
        ),
        final(stats).total_matches == capped_sum(
            old(stats).total_matches,
            (final(writer).accepted().len() - old(writer).accepted().len()) as nat,
        ),
        grew_cleanly(old(writer).accepted(), final(writer).accepted()),
        handed_out(*old(writer), *final(writer), batches.deep_view()),
{
    let mut batches: Vec<FlushBatch> = Vec::new();
    let mut i: usize = 0;
    proof {
        assert(writer.accepted() + Seq::<RowView>::empty() =~= writer.accepted());
        lemma_handed_out_nothing(*writer);
        assert(batches.deep_view() =~= Seq::<BatchView>::empty());
        assert(items@.take(0) =~= Seq::<serde_json::Value>::empty());
    }
    while i < items.len()
        invariant
            i <= items.len(),
            index.wf(),
            writer.wf(),
            writer.threshold() == old(writer).threshold(),
            writer.accepted() == old(writer).accepted() + rows_of_items(
                items@.take(i as int),
                source,
            ),
            index@ == index_after_items(old(index)@, items@.take(i as int), build_index),
            *stats == stats_after_items(*old(stats), items@.take(i as int), source, build_index),
            handed_out(*old(writer), *writer, batches.deep_view()),
        decreases items.len() - i,
    {
        let ghost mid = *writer;
        let ghost had = batches.deep_view();
        let ghost done = rows_of_items(items@.take(i as int), source);
        assert(items@.take(i + 1).drop_last() =~= items@.take(i as int));
        assert(items@.take(i + 1).last() == items@[i as int]);
        let more = process_item(&items[i], source, build_index, index, writer, stats);
        proof {
            lemma_handed_out_trans(*old(writer), mid, *writer, had, more.deep_view());
            assert(writer.accepted() =~= old(writer).accepted() + (done + rows_of_item(
                items@[i as int],
                source,
            )));
        }
        keep_batches(&mut batches, more);
        i += 1;
    }
    proof {
        assert(items@.take(items.len() as int) =~= items@);
        lemma_rows_of_items(*old(stats), items@, source, build_index);
        lemma_grew_cleanly_by(old(writer).accepted(), rows_of_items(items@, source));
    }
    batches
}

/// The items of an archive entry: the elements of the array member `items`
/// of the value that the text parses to; `None` when the text is not valid
/// JSON or the value has no such member.
pub open spec fn entry_items(text: Seq<char>) -> Option<
    Seq<(Map<Seq<char>, Seq<char>>, Seq<char>)>,
> {
    match json_parsed(text) {
        Some(parsed) => if parsed.1.contains_key("items"@) {
            Some(parsed.1["items"@])
        } else {
            None
        },
        None => None,
    }
}

/// Processes one archive entry, given as text. An entry that is not valid
/// JSON is skipped and not counted; an entry without an `items` array is
/// counted and skipped; of any other entry the items are processed in turn.
/// The rows that are written never cite the work that they come from.
pub fn process_entry(
    text: &str,
    source: Source,
    build_index: bool,
    index: &mut DoiIndex,
    writer: &mut PartitionWriter,
    stats: &mut ExtractionStats,
) -> (r: (EntryOutcome, Vec<FlushBatch>))
    requires
        old(index).wf(),
        old(writer).wf(),
    ensures
        final(index).wf(),
        final(writer).wf(),
        final(writer).threshold() == old(writer).threshold(),
        r.0 == EntryOutcome::Unparsable <==> json_parsed(text@) is None,
        r.0 == EntryOutcome::NoItems <==> json_parsed(text@) is Some && entry_items(
            text@,
        ) is None,
        r.0 == EntryOutcome::Unparsable ==> final(writer).accepted() == old(writer).accepted()
            && final(index)@ == old(index)@ && *final(stats) == *old(stats) && r.1@.len() == 0,
        r.0 == EntryOutcome::NoItems ==> final(writer).accepted() == old(writer).accepted()
            && final(index)@ == old(index)@ && *final(stats) == file_counted(*old(stats))
            && r.1@.len() == 0,
        r.0 == EntryOutcome::Processed ==> exists|items: Seq<serde_json::Value>|
            {
                &&& Some(#[trigger] items_view(items)) == entry_items(text@)
                &&& final(writer).accepted() == old(writer).accepted() + rows_of_items(
                    items,
                    source,
                )
                &&& no_self_citation(rows_of_items(items, source))
                &&& final(index)@ == index_after_items(old(index)@, items, build_index)
                &&& *final(stats) == file_counted(
                    stats_after_items(*old(stats), items, source, build_index),
                )
            },
        grew_cleanly(old(writer).accepted(), final(writer).accepted()),
        final(stats).total_matches == capped_sum(
            old(stats).total_matches,
            (final(writer).accepted().len() - old(writer).accepted().len()) as nat,
        ),
        handed_out(*old(writer), *final(writer), r.1.deep_view()),
        !build_index ==> final(index)@ == old(index)@,
        r.0 != EntryOutcome::Unparsable ==> final(stats).files_processed == capped_sum(
            old(stats).files_processed,
            1,
        ),
{
    proof {
        lemma_grew_cleanly_by(writer.accepted(), Seq::empty());
        assert(writer.accepted() + Seq::<RowView>::empty() =~= writer.accepted());
        lemma_handed_out_nothing(*writer);
    }
    let json = match parse_json(text) {
        Some(json) => json,
        None => {
            let none: Vec<FlushBatch> = Vec::new();
            assert(none.deep_view() =~= Seq::<BatchView>::empty());
            return (EntryOutcome::Unparsable, none);
        },
    };
    match array_member(&json, "items") {
        Some(items) => {
            let batches = process_items(items, source, build_index, index, writer, stats);
            stats.files_processed = stats.files_processed.saturating_add(1);
            proof {
                lemma_rows_of_items(*old(stats), items@, source, build_index);
                lemma_index_unbuilt(old(index)@, items@);
                assert(Some(items_view(items@)) == entry_items(text@));
            }
            (EntryOutcome::Processed, batches)
        },
        None => {
            stats.files_processed = stats.files_processed.saturating_add(1);
            let none: Vec<FlushBatch> = Vec::new();
            assert(none.deep_view() =~= Seq::<BatchView>::empty());
            (EntryOutcome::NoItems, none)
        },
    }
}

/// An index that is not being built is left as it is.
pub proof fn lemma_index_unbuilt(v: DoiIndexView, items: Seq<serde_json::Value>)
    ensures
        index_after_items(v, items, false) == v,
    decreases items.len(),
{
    if items.len() > 0 {
        lemma_index_unbuilt(v, items.drop_last());
    }
}

} // verus!
