//! The decisions of the `extract` command: the arXiv identifiers that the
//! references of one work cite.

use crate::cli::Source;
use crate::common::types::{arxiv_doi_spec, ArxivMatch, ArxivMatchView};
use crate::extract::reference::{
    absorb_all, absorb_candidates, extract_arxiv_from_reference, has_hint,
    lemma_absorb_all_concat, lemma_merged_is_absorb_all, merged, reference_ids, IdentifierMatch,
    IdentifierView, Reference, ReferenceView,
};
use crate::json::{array_member, items_view, string_member, string_member_spec};
use crate::streaming::driver::{
    record_references, reference_from, reference_from_json, reference_of,
};
use crate::text::{chars_of, lemma_lex_lt_asymmetric, lex_lt, str_lt};
use vstd::prelude::*;

verus! {

/// A work with the arXiv identifiers that its references cite, and the
/// references that may cite arXiv.
#[derive(Debug, Clone)]
pub struct ArxivRefMatch {
    /// DOI of the citing work.
    pub doi: String,
    /// The identifiers, each once, in the order of the identifiers.
    pub arxiv_matches: Vec<ArxivMatch>,
    /// The references that pass the hint filter, serialized.
    pub references: Vec<String>,
}

/// The serialized forms of the references that pass the hint filter.
pub open spec fn hinted_json(refs: Seq<ReferenceView>) -> Seq<Seq<char>>
    decreases refs.len(),
{
    if refs.len() == 0 {
        Seq::empty()
    } else {
        let rest = hinted_json(refs.drop_last());
        if has_hint(refs.last()) {
            rest.push(refs.last().json)
        } else {
            rest
        }
    }
}

/// The arXiv identifiers of the references, reference by reference.
pub open spec fn record_candidates(refs: Seq<ReferenceView>) -> Seq<IdentifierView>
    decreases refs.len(),
{
    if refs.len() == 0 {
        Seq::empty()
    } else {
        record_candidates(refs.drop_last()) + reference_ids(refs.last(), Source::Arxiv)
    }
}

/// An identifier match as an arXiv match.
pub open spec fn as_arxiv_match(m: IdentifierView) -> ArxivMatchView {
    ArxivMatchView { id: m.id, raw: m.raw, arxiv_doi: arxiv_doi_spec(m.id) }
}

/// The arXiv matches of the identifiers.
pub open spec fn arxiv_matches_of(ids: Seq<IdentifierView>) -> Seq<ArxivMatchView> {
    Seq::new(ids.len(), |i: int| as_arxiv_match(ids[i]))
}

/// No match stands directly behind one with a larger identifier.
pub open spec fn ids_ascend(s: Seq<ArxivMatchView>) -> bool {
    forall|i: int| 0 <= i < s.len() - 1 ==> !lex_lt((#[trigger] s[i + 1]).id, s[i].id)
}

fn id_before(a: &ArxivMatch, b: &ArxivMatch) -> (r: bool)
    ensures
        r == lex_lt(a.deep_view().id, b.deep_view().id),
{
    let x = chars_of(a.id.as_str());
    let y = chars_of(b.id.as_str());
    str_lt(&x, &y)
}

/// Puts `m` into the sorted list `out`, before the first match with a
/// larger identifier.
fn insert_sorted(out: &mut Vec<ArxivMatch>, m: ArxivMatch)
    requires
        ids_ascend(old(out).deep_view()),
    ensures
        ids_ascend(final(out).deep_view()),
        final(out).deep_view().to_multiset() == old(out).deep_view().to_multiset().insert(
            m.deep_view(),
        ),
{
    broadcast use {
        vstd::seq_lib::group_to_multiset_ensures,
        vstd::multiset::group_multiset_axioms,
    };
    let ghost before = out.deep_view();
    let ghost mv = m.deep_view();
    let mut p: usize = 0;
    while p < out.len() && !id_before(&m, &out[p])
        invariant
            p <= out.len(),
            out.deep_view() == before,
            mv == m.deep_view(),
            forall|j: int| 0 <= j < p ==> !lex_lt(mv.id, (#[trigger] before[j]).id),
        decreases out.len() - p,
    {
        assert(before[p as int] == out@[p as int].deep_view());
        p += 1;
    }
    proof {
        if p < out.len() {
            assert(before[p as int] == out@[p as int].deep_view());
            lemma_lex_lt_asymmetric(mv.id, before[p as int].id);
        }
    }
    out.insert(p, m);
    proof {
        let after = out.deep_view();
        assert(after =~= before.insert(p as int, mv));
        assert forall|i: int| 0 <= i < after.len() - 1 implies !lex_lt(
            (#[trigger] after[i + 1]).id,
            after[i].id,
        ) by {
            if i + 1 < p {
                assert(!lex_lt(before[i + 1].id, before[i].id));
            } else if i + 1 == p {
                assert(!lex_lt(mv.id, before[i].id));
            } else if i == p {
            } else {
                assert(before[(i - 1) + 1] == after[i + 1]);
                assert(!lex_lt(before[(i - 1) + 1].id, before[i - 1].id));
            }
        }
        vstd::seq_lib::to_multiset_insert(before, p as int, mv);
    }
}

/// The arXiv matches of the identifiers, in the order of their identifiers.
pub fn sorted_matches(ids: &Vec<IdentifierMatch>) -> (out: Vec<ArxivMatch>)
    ensures
        ids_ascend(out.deep_view()),
        out.deep_view().to_multiset() == arxiv_matches_of(ids.deep_view()).to_multiset(),
{
    broadcast use {
        vstd::seq_lib::group_to_multiset_ensures,
        vstd::multiset::group_multiset_axioms,
    };
    let mut out: Vec<ArxivMatch> = Vec::new();
    let ghost all = arxiv_matches_of(ids.deep_view());
    let mut i: usize = 0;
    assert(out.deep_view() =~= Seq::<ArxivMatchView>::empty());
    assert(all.take(0) =~= Seq::<ArxivMatchView>::empty());
    while i < ids.len()
        invariant
            i <= ids.len(),
            all == arxiv_matches_of(ids.deep_view()),
            ids_ascend(out.deep_view()),
            out.deep_view().to_multiset() == all.take(i as int).to_multiset(),
        decreases ids.len() - i,
    {
        let m = ArxivMatch::new(ids[i].id.clone(), ids[i].raw.clone());
        proof {
            assert(ids.deep_view()[i as int] == ids@[i as int].deep_view());
            assert(m.deep_view() == all[i as int]);
            assert(all.take(i + 1) =~= all.take(i as int).push(all[i as int]));
            vstd::seq_lib::to_multiset_build(all.take(i as int), all[i as int]);
        }
        insert_sorted(&mut out, m);
        i += 1;
    }
    assert(all.take(ids.len() as int) =~= all);
    out
}

/// `r` is what the references `refs` of the work `doi` give: nothing when no
/// reference passes the hint filter or no identifier is found; otherwise the
/// work with the references that pass the filter and with the identifiers
/// of all references, each once, in the order of the identifiers.
pub open spec fn is_record_match(
    r: Option<ArxivRefMatch>,
    doi: Seq<char>,
    refs: Seq<ReferenceView>,
) -> bool {
    &&& r is None <==> hinted_json(refs).len() == 0 || merged(record_candidates(refs)).len() == 0
    &&& r is Some ==> {
        &&& r->0.doi@ == doi
        &&& r->0.references.deep_view() == hinted_json(refs)
        &&& ids_ascend(r->0.arxiv_matches.deep_view())
        &&& r->0.arxiv_matches.deep_view().to_multiset() == arxiv_matches_of(
            merged(record_candidates(refs)),
        ).to_multiset()
    }
}

/// The arXiv identifiers that the references of the work `doi` cite: the
/// identifiers of all references, each once, in the order of the
/// identifiers, with the references that pass the hint filter. `None` when
/// no reference passes the filter or no identifier is found.
pub fn process_references(doi: &str, references: &Vec<Reference>) -> (r: Option<ArxivRefMatch>)
    ensures
        is_record_match(r, doi@, references.deep_view()),
        r is None <==> hinted_json(references.deep_view()).len() == 0 || merged(
            record_candidates(references.deep_view()),
        ).len() == 0,
        r is Some ==> {
            &&& r->0.doi@ == doi@
            &&& r->0.references.deep_view() == hinted_json(references.deep_view())
            &&& ids_ascend(r->0.arxiv_matches.deep_view())
            &&& r->0.arxiv_matches.deep_view().to_multiset() == arxiv_matches_of(
                merged(record_candidates(references.deep_view())),
            ).to_multiset()
        },
{
    let ghost refs = references.deep_view();
    let mut ids: Vec<IdentifierMatch> = Vec::new();
    let mut hinted: Vec<String> = Vec::new();
    let mut i: usize = 0;
    assert(refs.take(0) =~= Seq::<ReferenceView>::empty());
    assert(ids.deep_view() =~= Seq::<IdentifierView>::empty());
    assert(hinted.deep_view() =~= Seq::<Seq<char>>::empty());
    while i < references.len()
        invariant
            i <= references.len(),
            refs == references.deep_view(),
            ids.deep_view() == absorb_all(Seq::empty(), record_candidates(refs.take(i as int))),
            hinted.deep_view() == hinted_json(refs.take(i as int)),
        decreases references.len() - i,
    {
        let ghost hb = hinted.deep_view();
        let (found, has_arxiv) = extract_arxiv_from_reference(&references[i]);
        proof {
            assert(refs.take(i + 1).drop_last() =~= refs.take(i as int));
            assert(refs.take(i + 1).last() == references@[i as int].deep_view());
            lemma_absorb_all_concat(
                Seq::empty(),
                record_candidates(refs.take(i as int)),
                found.deep_view(),
            );
        }
        if has_arxiv {
            hinted.push(references[i].json.clone());
            assert(hinted.deep_view() =~= hb.push(references@[i as int].json@));
        }
        absorb_candidates(&mut ids, found);
        i += 1;
    }
    proof {
        assert(refs.take(references.len() as int) =~= refs);
        lemma_merged_is_absorb_all(record_candidates(refs));
    }
    if hinted.len() == 0 || ids.len() == 0 {
        return None;
    }
    let arxiv_matches = sorted_matches(&ids);
    Some(ArxivRefMatch { doi: doi.to_owned(), arxiv_matches, references: hinted })
}

/// The DOI and the references of a record: its string member `DOI` and its
/// array member `reference`; `None` when it lacks one of them.
pub open spec fn record_parts(record: serde_json::Value) -> Option<(Seq<char>, Seq<ReferenceView>)> {
    match (string_member_spec(record, "DOI"@), record_references(record)) {
        (Some(doi), Some(refs)) => Some((doi, refs)),
        _ => None,
    }
}

/// The record gives a match: it has a DOI and references, one of which
/// passes the hint filter, and an identifier is found.
pub open spec fn cites_arxiv(record: serde_json::Value) -> bool {
    match record_parts(record) {
        Some(parts) => hinted_json(parts.1).len() > 0 && merged(record_candidates(parts.1)).len()
            > 0,
        None => false,
    }
}

/// `m` is the match that the record gives.
pub open spec fn is_match_of(m: ArxivRefMatch, record: serde_json::Value) -> bool {
    match record_parts(record) {
        Some(parts) => is_record_match(Some(m), parts.0, parts.1),
        None => false,
    }
}

/// The records that give a match, in order.
pub open spec fn citing_records(items: Seq<serde_json::Value>) -> Seq<serde_json::Value>
    decreases items.len(),
{
    if items.len() == 0 {
        Seq::empty()
    } else {
        let rest = citing_records(items.drop_last());
        if cites_arxiv(items.last()) {
            rest.push(items.last())
        } else {
            rest
        }
    }
}

/// The arXiv identifiers that the references of a record cite. A record
/// without a `DOI` string or without a `reference` array gives `None`; any
/// other record gives what its references give for its DOI.
pub fn process_record(record: &serde_json::Value) -> (r: Option<ArxivRefMatch>)
    ensures
        match record_parts(*record) {
            Some(parts) => is_record_match(r, parts.0, parts.1),
            None => r is None,
        },
        r is Some <==> cites_arxiv(*record),
        r is Some ==> is_match_of(r->0, *record),
        r is Some ==> r->0.references@.len() > 0 && r->0.arxiv_matches@.len() > 0 && ids_ascend(
            r->0.arxiv_matches.deep_view(),
        ),
{
    let doi = match string_member(record, "DOI") {
        Some(doi) => doi,
        None => {
            return None;
        },
    };
    let values = match array_member(record, "reference") {
        Some(values) => values,
        None => {
            return None;
        },
    };
    let mut references: Vec<Reference> = Vec::new();
    let mut i: usize = 0;
    assert(references.deep_view() =~= Seq::<ReferenceView>::empty());
    while i < values.len()
        invariant
            i <= values.len(),
            references.deep_view().len() == i,
            forall|j: int|
                0 <= j < i ==> #[trigger] references.deep_view()[j] == reference_of(values@[j]),
        decreases values.len() - i,
    {
        let ghost before = references.deep_view();
        let reference = reference_from_json(&values[i]);
        references.push(reference);
        assert(references.deep_view() =~= before.push(reference.deep_view()));
        i += 1;
    }
    proof {
        let items = items_view(values@);
        assert(record_references(*record) == Some(
            Seq::new(items.len(), |i: int| reference_from(items[i].0, items[i].1)),
        ));
        assert(references.deep_view() =~= record_references(*record)->0);
    }
    let r = process_references(doi.as_str(), &references);
    proof {
        if r is Some {
            let ms = r->0.arxiv_matches.deep_view();
            let want = arxiv_matches_of(merged(record_candidates(references.deep_view())));
            ms.to_multiset_ensures();
            want.to_multiset_ensures();
            assert(ms.len() == want.len());
            assert(r->0.references.deep_view().len() == r->0.references@.len());
        }
    }
    r
}

/// The matches of the records of `items` that give one, in the order of the
/// records.
pub fn process_json_items(items: &Vec<serde_json::Value>) -> (found: Vec<ArxivRefMatch>)
    ensures
        found@.len() == citing_records(items@).len(),
        forall|j: int|
            0 <= j < found@.len() ==> is_match_of(#[trigger] found@[j], citing_records(items@)[j]),
        found@.len() <= items@.len(),
{
    let mut found: Vec<ArxivRefMatch> = Vec::new();
    let mut i: usize = 0;
    assert(items@.take(0) =~= Seq::<serde_json::Value>::empty());
    while i < items.len()
        invariant
            i <= items.len(),
            found@.len() <= i,
            found@.len() == citing_records(items@.take(i as int)).len(),
            forall|j: int|
                0 <= j < found@.len() ==> is_match_of(
                    #[trigger] found@[j],
                    citing_records(items@.take(i as int))[j],
                ),
        decreases items.len() - i,
    {
        assert(items@.take(i + 1).drop_last() =~= items@.take(i as int));
        assert(items@.take(i + 1).last() == items@[i as int]);
        match process_record(&items[i]) {
            Some(m) => {
                found.push(m);
            },
            None => {},
        }
        i += 1;
    }
    assert(items@.take(items.len() as int) =~= items@);
    found
}

} // verus!
