//! Building an index from the lines of a registry dump.

use crate::commands::pipeline::capped_sum;
use crate::index::{inserted, DoiIndex, DoiIndexView};
use crate::json::{json_parsed, parse_json, string_member};
use crate::text::{chars_of, is_whitespace, is_whitespace_char};
use vstd::prelude::*;

verus! {

/// Every character of the line is whitespace.
pub open spec fn is_blank_spec(line: Seq<char>) -> bool {
    forall|i: int| 0 <= i < line.len() ==> is_whitespace_char(#[trigger] line[i])
}

/// Whether the line holds nothing but whitespace.
pub fn is_blank(line: &str) -> (r: bool)
    ensures
        r == is_blank_spec(line@),
{
    let v = chars_of(line);
    let mut i: usize = 0;
    while i < v.len()
        invariant
            i <= v.len(),
            v@ == line@,
            forall|j: int| 0 <= j < i ==> is_whitespace_char(#[trigger] v@[j]),
        decreases v.len() - i,
    {
        if !is_whitespace(v[i]) {
            assert(!is_whitespace_char(line@[i as int]));
            return false;
        }
        i += 1;
    }
    true
}

/// What one line of a dump gave.
#[derive(Debug, Clone, PartialEq, Eq)]
pub enum LineOutcome {
    /// The line is blank; it does not count.
    Blank,
    /// The line is not valid JSON.
    Malformed,
    /// The line has no identifier: the field is absent or is no string.
    NoId,
    /// The identifier of the line.
    Id(String),
}

/// The mathematical value of a [`LineOutcome`].
pub enum OutcomeView {
    Blank,
    Malformed,
    NoId,
    Id(Seq<char>),
}

impl DeepView for LineOutcome {
    type V = OutcomeView;

    open spec fn deep_view(&self) -> OutcomeView {
        match self {
            LineOutcome::Blank => OutcomeView::Blank,
            LineOutcome::Malformed => OutcomeView::Malformed,
            LineOutcome::NoId => OutcomeView::NoId,
            LineOutcome::Id(id) => OutcomeView::Id(id@),
        }
    }
}

/// Counters of an index build. A counter that has reached the largest
/// `usize` stays there.
#[derive(Debug, Clone, Copy, PartialEq, Eq, Structural)]
pub struct BuildStats {
    /// Lines that were not blank.
    pub lines_processed: usize,
    /// Lines that were not valid JSON.
    pub lines_failed: usize,
    /// Lines without an identifier.
    pub ids_missing: usize,
}

/// What a line of a dump gives: nothing when it is blank; otherwise it is
/// parsed as JSON, and gives the string member `id_field` of the value, if
/// the text is valid JSON and the value has such a member.
pub open spec fn outcome_of(line: Seq<char>, id_field: Seq<char>) -> OutcomeView {
    if is_blank_spec(line) {
        OutcomeView::Blank
    } else {
        match json_parsed(line) {
            Some(members) => if members.0.contains_key(id_field) {
                OutcomeView::Id(members.0[id_field])
            } else {
                OutcomeView::NoId
            },
            None => OutcomeView::Malformed,
        }
    }
}

/// Reads the identifier of one line of a dump.
pub fn read_id(line: &str, id_field: &str) -> (r: LineOutcome)
    ensures
        r.deep_view() == outcome_of(line@, id_field@),
        r is Blank <==> is_blank_spec(line@),
{
    if is_blank(line) {
        return LineOutcome::Blank;
    }
    match parse_json(line) {
        Some(record) => match string_member(&record, id_field) {
            Some(id) => LineOutcome::Id(id),
            None => LineOutcome::NoId,
        },
        None => LineOutcome::Malformed,
    }
}

/// The counters after a line with the given outcome.
pub open spec fn counted(stats: BuildStats, outcome: OutcomeView) -> BuildStats {
    match outcome {
        OutcomeView::Blank => stats,
        OutcomeView::Malformed => BuildStats {
            lines_processed: capped_sum(stats.lines_processed, 1),
            lines_failed: capped_sum(stats.lines_failed, 1),
            ids_missing: stats.ids_missing,
        },
        OutcomeView::NoId => BuildStats {
            lines_processed: capped_sum(stats.lines_processed, 1),
            lines_failed: stats.lines_failed,
            ids_missing: capped_sum(stats.ids_missing, 1),
        },
        OutcomeView::Id(id) => BuildStats {
            lines_processed: capped_sum(stats.lines_processed, 1),
            lines_failed: stats.lines_failed,
            ids_missing: stats.ids_missing,
        },
    }
}

/// The index after a line with the given outcome: an identifier is offered
/// to it; any other outcome leaves it as it is.
pub open spec fn indexed(index: DoiIndexView, outcome: OutcomeView) -> DoiIndexView {
    match outcome {
        OutcomeView::Id(id) => inserted(index, id),
        _ => index,
    }
}

/// The index and the counters that the lines of a dump give, taken line by
/// line, starting from an empty index and counters at zero.
pub open spec fn built(lines: Seq<Seq<char>>, id_field: Seq<char>) -> (DoiIndexView, BuildStats)
    decreases lines.len(),
{
    if lines.len() == 0 {
        (
            DoiIndex::empty_view(),
            BuildStats { lines_processed: 0, lines_failed: 0, ids_missing: 0 },
        )
    } else {
        let before = built(lines.drop_last(), id_field);
        let outcome = outcome_of(lines.last(), id_field);
        (indexed(before.0, outcome), counted(before.1, outcome))
    }
}

/// Takes the outcome of one line into the index and the counters: an
/// identifier is offered to the index; a malformed line and a line without
/// identifier are counted and skipped; a blank line changes nothing.
pub fn take_line(index: &mut DoiIndex, stats: &mut BuildStats, outcome: &LineOutcome)
    requires
        old(index).wf(),
    ensures
        final(index).wf(),
        *final(stats) == counted(*old(stats), outcome.deep_view()),
        final(index)@ == indexed(old(index)@, outcome.deep_view()),
{
    match outcome {
        LineOutcome::Blank => {},
        LineOutcome::Malformed => {
            stats.lines_processed = stats.lines_processed.saturating_add(1);
            stats.lines_failed = stats.lines_failed.saturating_add(1);
        },
        LineOutcome::NoId => {
            stats.lines_processed = stats.lines_processed.saturating_add(1);
            stats.ids_missing = stats.ids_missing.saturating_add(1);
        },
        LineOutcome::Id(id) => {
            stats.lines_processed = stats.lines_processed.saturating_add(1);
            index.insert(id.as_str());
        },
    }
}

/// Builds an index from the lines of a dump: each line that is not blank is
/// parsed as a JSON object, and the string under `id_field`, if there is
/// one, is offered to the index. Malformed lines and lines without
/// identifier are counted and skipped.
pub fn build_index_from_lines(lines: &Vec<String>, id_field: &str) -> (r: (DoiIndex, BuildStats))
    ensures
        r.0.wf(),
        r.0@ == built(lines.deep_view(), id_field@).0,
        r.1 == built(lines.deep_view(), id_field@).1,
        r.1.lines_processed <= lines@.len(),
        r.1.lines_failed + r.1.ids_missing <= r.1.lines_processed,
{
    let mut index = DoiIndex::with_capacity(lines.len(), 0);
    let mut stats = BuildStats { lines_processed: 0, lines_failed: 0, ids_missing: 0 };
    let ghost all = lines.deep_view();
    let mut i: usize = 0;
    assert(all.take(0) =~= Seq::<Seq<char>>::empty());
    while i < lines.len()
        invariant
            i <= lines.len(),
            all == lines.deep_view(),
            index.wf(),
            index@ == built(all.take(i as int), id_field@).0,
            stats == built(all.take(i as int), id_field@).1,
            stats.lines_processed <= i,
            stats.lines_failed + stats.ids_missing <= stats.lines_processed,
        decreases lines.len() - i,
    {
        assert(all.take(i + 1).drop_last() =~= all.take(i as int));
        assert(all.take(i + 1).last() == lines@[i as int]@);
        let outcome = read_id(lines[i].as_str(), id_field);
        take_line(&mut index, &mut stats, &outcome);
        i += 1;
    }
    assert(all.take(lines.len() as int) =~= all);
    (index, stats)
}

} // verus!
