//! The identifiers that one reference entry cites.

use crate::cli::Source;
use crate::common::types::{ArxivMatch, ArxivMatchView};
use crate::extract::doi::{
    doi_matches_in, extract_doi_matches_from_text, normalize_doi, normalize_doi_spec, DoiMatch,
    DoiMatchView,
};
use crate::extract::patterns::{arxiv_matches_in, extract_arxiv_matches_from_text};
use crate::common::vecs::reversed;
use crate::extract::provenance::Provenance;
use crate::text::{chars_of, contains_seq, lower, lowercase, str_eq, vec_contains};
use vstd::prelude::*;

verus! {

/// A reference entry of a citing work: the fields that are recognized, and
/// the entry as it was serialized.
#[derive(Debug, Clone)]
pub struct Reference {
    /// The `DOI` field.
    pub doi: Option<String>,
    /// The `unstructured` field.
    pub unstructured: Option<String>,
    /// The `article-title` field.
    pub article_title: Option<String>,
    /// The `journal-title` field.
    pub journal_title: Option<String>,
    /// The `URL` field.
    pub url: Option<String>,
    /// The `doi-asserted-by` field.
    pub doi_asserted_by: Option<String>,
    /// The whole entry, serialized.
    pub json: String,
}

/// The mathematical value of a [`Reference`].
pub struct ReferenceView {
    pub doi: Option<Seq<char>>,
    pub unstructured: Option<Seq<char>>,
    pub article_title: Option<Seq<char>>,
    pub journal_title: Option<Seq<char>>,
    pub url: Option<Seq<char>>,
    pub doi_asserted_by: Option<Seq<char>>,
    pub json: Seq<char>,
}

impl DeepView for Reference {
    type V = ReferenceView;

    open spec fn deep_view(&self) -> ReferenceView {
        ReferenceView {
            doi: self.doi.deep_view(),
            unstructured: self.unstructured.deep_view(),
            article_title: self.article_title.deep_view(),
            journal_title: self.journal_title.deep_view(),
            url: self.url.deep_view(),
            doi_asserted_by: self.doi_asserted_by.deep_view(),
            json: self.json@,
        }
    }
}

/// An identifier match: the normalized identifier, the substring that
/// produced it, and its provenance.
#[derive(Debug, Clone)]
pub struct IdentifierMatch {
    /// The normalized identifier.
    pub id: String,
    /// The substring that produced it.
    pub raw: String,
    /// How it was obtained.
    pub provenance: Provenance,
}

/// The mathematical value of an [`IdentifierMatch`].
pub struct IdentifierView {
    pub id: Seq<char>,
    pub raw: Seq<char>,
    pub provenance: Provenance,
}

impl DeepView for IdentifierMatch {
    type V = IdentifierView;

    open spec fn deep_view(&self) -> IdentifierView {
        IdentifierView { id: self.id@, raw: self.raw@, provenance: self.provenance }
    }
}

// ---------------------------------------------------------------------------
// The hint filter
// ---------------------------------------------------------------------------

/// The field is there and its lowercase form holds `word`.
pub open spec fn mentions(field: Option<Seq<char>>, word: Seq<char>) -> bool {
    match field {
        Some(t) => contains_seq(lower(t), word),
        None => false,
    }
}

/// A reference may cite arXiv: one of its text fields mentions `arxiv`, in
/// any case, or its DOI field holds `10.48550`.
pub open spec fn arxiv_hint_spec(
    doi: Option<Seq<char>>,
    unstructured: Option<Seq<char>>,
    article_title: Option<Seq<char>>,
    journal_title: Option<Seq<char>>,
    url: Option<Seq<char>>,
) -> bool {
    mentions(unstructured, "arxiv"@) || mentions(article_title, "arxiv"@) || mentions(
        journal_title,
        "arxiv"@,
    ) || mentions(url, "arxiv"@) || mentions(doi, "10.48550"@)
}

/// The reference passes the hint filter.
pub open spec fn has_hint(r: ReferenceView) -> bool {
    arxiv_hint_spec(r.doi, r.unstructured, r.article_title, r.journal_title, r.url)
}

fn field_mentions(field: Option<&str>, word: &str) -> (r: bool)
    ensures
        r == mentions(field.deep_view(), word@),
{
    match field {
        Some(t) => {
            let folded = lowercase(t);
            let v = chars_of(folded.as_str());
            let w = chars_of(word);
            vec_contains(&v, &w)
        },
        None => false,
    }
}

/// The cheap test that is made before the arXiv patterns are run: whether a
/// text field mentions `arxiv`, or the DOI field holds `10.48550`.
pub fn check_arxiv_hint(
    doi: Option<&str>,
    unstructured: Option<&str>,
    article_title: Option<&str>,
    journal_title: Option<&str>,
    url: Option<&str>,
) -> (r: bool)
    ensures
        r == arxiv_hint_spec(
            doi.deep_view(),
            unstructured.deep_view(),
            article_title.deep_view(),
            journal_title.deep_view(),
            url.deep_view(),
        ),
{
    field_mentions(unstructured, "arxiv") || field_mentions(article_title, "arxiv")
        || field_mentions(journal_title, "arxiv") || field_mentions(url, "arxiv") || field_mentions(
        doi,
        "10.48550",
    )
}

fn as_slice(field: &Option<String>) -> (r: Option<&str>)
    ensures
        r.deep_view() == field.deep_view(),
{
    match field {
        Some(t) => Some(t.as_str()),
        None => None,
    }
}

// ---------------------------------------------------------------------------
// Candidates
// ---------------------------------------------------------------------------

/// The provenance that `doi-asserted-by` gives to the DOI field.
pub open spec fn asserted_by_spec(by: Option<Seq<char>>) -> Option<Provenance> {
    match by {
        Some(s) => if s == "publisher"@ {
            Some(Provenance::Publisher)
        } else if s == "crossref"@ {
            Some(Provenance::Crossref)
        } else {
            None
        },
        None => None,
    }
}

/// The field as a list of no element or one.
pub open spec fn present(field: Option<Seq<char>>) -> Seq<Seq<char>> {
    match field {
        Some(t) => seq![t],
        None => Seq::empty(),
    }
}

/// The text fields of a reference that are there, in the order `DOI`,
/// `unstructured`, `article-title`, `journal-title`, `URL`.
pub open spec fn text_fields_spec(r: ReferenceView) -> Seq<Seq<char>> {
    present(r.doi) + present(r.unstructured) + present(r.article_title) + present(r.journal_title)
        + present(r.url)
}

/// A DOI match as an identifier match.
pub open spec fn doi_as_identifier(m: DoiMatchView) -> IdentifierView {
    IdentifierView { id: m.doi, raw: m.raw, provenance: m.provenance }
}

/// An arXiv match as an identifier match; it is always mined.
pub open spec fn arxiv_as_identifier(m: ArxivMatchView) -> IdentifierView {
    IdentifierView { id: m.id, raw: m.raw, provenance: Provenance::Mined }
}

/// The DOIs mined from the given texts, text by text.
pub open spec fn mined_dois_over(fields: Seq<Seq<char>>) -> Seq<IdentifierView>
    decreases fields.len(),
{
    if fields.len() == 0 {
        Seq::empty()
    } else {
        mined_dois_over(fields.drop_last()) + doi_matches_in(fields.last()).map_values(
            |m: DoiMatchView| doi_as_identifier(m),
        )
    }
}

/// The arXiv identifiers mined from the given texts, text by text.
pub open spec fn arxiv_ids_over(fields: Seq<Seq<char>>) -> Seq<IdentifierView>
    decreases fields.len(),
{
    if fields.len() == 0 {
        Seq::empty()
    } else {
        arxiv_ids_over(fields.drop_last()) + arxiv_matches_in(fields.last()).map_values(
            |m: ArxivMatchView| arxiv_as_identifier(m),
        )
    }
}

/// The DOI of the `DOI` field with the provenance that the registry asserts
/// for it, when it asserts one.
pub open spec fn asserted_candidate(r: ReferenceView) -> Seq<IdentifierView> {
    match (r.doi, asserted_by_spec(r.doi_asserted_by)) {
        (Some(d), Some(p)) => seq![
            IdentifierView { id: normalize_doi_spec(d), raw: d, provenance: p },
        ],
        _ => Seq::empty(),
    }
}

/// Every identifier that a reference gives for the source, before
/// duplicates are merged. For arXiv: the identifiers mined from the text
/// fields, if the hint filter lets the reference through. Otherwise: the
/// asserted DOI, then the DOIs mined from the text fields.
pub open spec fn candidates_spec(r: ReferenceView, source: Source) -> Seq<IdentifierView> {
    if source == Source::Arxiv {
        if has_hint(r) {
            arxiv_ids_over(text_fields_spec(r))
        } else {
            Seq::empty()
        }
    } else {
        asserted_candidate(r) + mined_dois_over(text_fields_spec(r))
    }
}

// ---------------------------------------------------------------------------
// Merging duplicates
// ---------------------------------------------------------------------------

/// The position of the first match of `ms` with the identifier `id`, or -1.
pub open spec fn index_of_id(ms: Seq<IdentifierView>, id: Seq<char>) -> int
    decreases ms.len(),
{
    if ms.len() == 0 {
        -1
    } else {
        let i = index_of_id(ms.drop_last(), id);
        if i >= 0 {
            i
        } else if ms.last().id == id {
            ms.len() - 1
        } else {
            -1
        }
    }
}

/// `ms` after the candidate `c` is taken in: a new identifier is appended;
/// a known one keeps its place, and takes the candidate's provenance and raw
/// match when the candidate's provenance is the stronger.
pub open spec fn absorb(ms: Seq<IdentifierView>, c: IdentifierView) -> Seq<IdentifierView> {
    let i = index_of_id(ms, c.id);
    if i < 0 {
        ms.push(c)
    } else if c.provenance.rank_spec() > ms[i].provenance.rank_spec() {
        ms.update(i, c)
    } else {
        ms
    }
}

/// The candidates with duplicates merged: one match for each identifier, in
/// first-seen order, with the strongest provenance that was seen for it.
pub open spec fn merged(cands: Seq<IdentifierView>) -> Seq<IdentifierView>
    decreases cands.len(),
{
    if cands.len() == 0 {
        Seq::empty()
    } else {
        absorb(merged(cands.drop_last()), cands.last())
    }
}

/// The identifiers that a reference cites for the source.
pub open spec fn reference_ids(r: ReferenceView, source: Source) -> Seq<IdentifierView> {
    merged(candidates_spec(r, source))
}

/// What [`index_of_id`] finds is in range and has the identifier; before it
/// nothing has.
pub proof fn lemma_index_of_id(ms: Seq<IdentifierView>, id: Seq<char>)
    ensures
        -1 <= index_of_id(ms, id) < ms.len(),
        index_of_id(ms, id) >= 0 ==> ms[index_of_id(ms, id)].id == id,
        forall|j: int|
            0 <= j < ms.len() && (index_of_id(ms, id) < 0 || j < index_of_id(ms, id)) ==> (
            #[trigger] ms[j]).id != id,
    decreases ms.len(),
{
    if ms.len() > 0 {
        lemma_index_of_id(ms.drop_last(), id);
        let i = index_of_id(ms.drop_last(), id);
        assert forall|j: int|
            0 <= j < ms.len() && (index_of_id(ms, id) < 0 || j < index_of_id(ms, id)) implies (
        #[trigger] ms[j]).id != id by {
            if j < ms.len() - 1 {
                assert(ms.drop_last()[j] == ms[j]);
            }
        }
    }
}

/// The first position that has the identifier is the one [`index_of_id`] finds.
pub proof fn lemma_index_of_id_is(ms: Seq<IdentifierView>, id: Seq<char>, i: int)
    requires
        0 <= i < ms.len(),
        ms[i].id == id,
        forall|j: int| 0 <= j < i ==> (#[trigger] ms[j]).id != id,
    ensures
        index_of_id(ms, id) == i,
{
    lemma_index_of_id(ms, id);
}

/// Merged matches have distinct identifiers.
pub proof fn lemma_merged_distinct(cands: Seq<IdentifierView>)
    ensures
        forall|a: int, b: int|
            0 <= a < b < merged(cands).len() ==> (#[trigger] merged(cands)[a]).id != (
            #[trigger] merged(cands)[b]).id,
    decreases cands.len(),
{
    if cands.len() > 0 {
        let before = merged(cands.drop_last());
        lemma_merged_distinct(cands.drop_last());
        lemma_index_of_id(before, cands.last().id);
    }
}

fn find_id(ms: &Vec<IdentifierMatch>, id: &str) -> (r: Option<usize>)
    ensures
        match r {
            Some(i) => index_of_id(ms.deep_view(), id@) == i && i < ms.len(),
            None => index_of_id(ms.deep_view(), id@) == -1,
        },
{
    let mut i: usize = 0;
    while i < ms.len()
        invariant
            i <= ms.len(),
            forall|j: int| 0 <= j < i ==> (#[trigger] ms.deep_view()[j]).id != id@,
        decreases ms.len() - i,
    {
        if str_eq(ms[i].id.as_str(), id) {
            proof {
                assert(ms.deep_view()[i as int].id == id@);
                lemma_index_of_id_is(ms.deep_view(), id@, i as int);
            }
            return Some(i);
        }
        assert(ms.deep_view()[i as int].id != id@);
        i += 1;
    }
    proof {
        lemma_index_of_id(ms.deep_view(), id@);
        let k = index_of_id(ms.deep_view(), id@);
        if k >= 0 {
            assert(ms.deep_view()[k].id == id@);
        }
    }
    None
}

/// Takes one candidate into the merged matches.
pub fn absorb_candidate(ms: &mut Vec<IdentifierMatch>, c: IdentifierMatch)
    ensures
        final(ms).deep_view() == absorb(old(ms).deep_view(), c.deep_view()),
{
    let ghost before = ms.deep_view();
    match find_id(ms, c.id.as_str()) {
        Some(i) => {
            if c.provenance.rank() > ms[i].provenance.rank() {
                ms[i] = c;
                assert(ms.deep_view() =~= before.update(i as int, c.deep_view()));
            }
        },
        None => {
            ms.push(c);
            assert(ms.deep_view() =~= before.push(c.deep_view()));
        },
    }
}

/// Takes the candidates into the merged matches, one after the other.
pub fn absorb_candidates(ms: &mut Vec<IdentifierMatch>, cands: Vec<IdentifierMatch>)
    ensures
        final(ms).deep_view() == absorb_all(old(ms).deep_view(), cands.deep_view()),
{
    let ghost all = cands.deep_view();
    let mut rev = reversed(cands);
    assert(rev.deep_view().reverse() =~= all);
    let ghost done: Seq<IdentifierView> = Seq::empty();
    while rev.len() > 0
        invariant
            done + rev.deep_view().reverse() == all,
            ms.deep_view() == absorb_all(old(ms).deep_view(), done),
        decreases rev.len(),
    {
        let ghost rb = rev.deep_view();
        let c = rev.pop().unwrap();
        let ghost cv = c.deep_view();
        absorb_candidate(ms, c);
        proof {
            assert(rev.deep_view() =~= rb.drop_last());
            assert(rb.reverse() =~= seq![cv] + rev.deep_view().reverse());
            let next = done.push(cv);
            assert(next.drop_last() =~= done);
            assert(next + rev.deep_view().reverse() =~= done + rb.reverse());
            done = next;
        }
    }
    assert(done =~= all);
}

/// `ms` after each candidate of `cands` is taken in, in order.
pub open spec fn absorb_all(ms: Seq<IdentifierView>, cands: Seq<IdentifierView>) -> Seq<
    IdentifierView,
>
    decreases cands.len(),
{
    if cands.len() == 0 {
        ms
    } else {
        absorb(absorb_all(ms, cands.drop_last()), cands.last())
    }
}

/// Taking in a concatenation is taking in its parts in turn.
pub proof fn lemma_absorb_all_concat(
    ms: Seq<IdentifierView>,
    a: Seq<IdentifierView>,
    b: Seq<IdentifierView>,
)
    ensures
        absorb_all(ms, a + b) == absorb_all(absorb_all(ms, a), b),
    decreases b.len(),
{
    if b.len() == 0 {
        assert(a + b =~= a);
    } else {
        assert((a + b).drop_last() =~= a + b.drop_last());
        lemma_absorb_all_concat(ms, a, b.drop_last());
    }
}

/// Merging is taking everything in, starting from nothing.
pub proof fn lemma_merged_is_absorb_all(cands: Seq<IdentifierView>)
    ensures
        merged(cands) == absorb_all(Seq::empty(), cands),
    decreases cands.len(),
{
    if cands.len() > 0 {
        lemma_merged_is_absorb_all(cands.drop_last());
    }
}

// ---------------------------------------------------------------------------
// Extraction from a reference
// ---------------------------------------------------------------------------

fn push_present(fields: &mut Vec<String>, field: &Option<String>)
    ensures
        final(fields).deep_view() == old(fields).deep_view() + present(field.deep_view()),
{
    match field {
        Some(t) => {
            fields.push(t.clone());
            assert(fields.deep_view() =~= old(fields).deep_view() + seq![t@]);
        },
        None => {
            assert(fields.deep_view() =~= old(fields).deep_view() + Seq::<Seq<char>>::empty());
        },
    }
}

/// The text fields of a reference that are there.
pub fn text_fields(reference: &Reference) -> (fields: Vec<String>)
    ensures
        fields.deep_view() == text_fields_spec(reference.deep_view()),
{
    let mut fields: Vec<String> = Vec::new();
    assert(fields.deep_view() =~= Seq::<Seq<char>>::empty());
    push_present(&mut fields, &reference.doi);
    push_present(&mut fields, &reference.unstructured);
    push_present(&mut fields, &reference.article_title);
    push_present(&mut fields, &reference.journal_title);
    push_present(&mut fields, &reference.url);
    assert(fields.deep_view() =~= text_fields_spec(reference.deep_view()));
    fields
}

fn dois_as_identifiers(matches: Vec<DoiMatch>) -> (ids: Vec<IdentifierMatch>)
    ensures
        ids.deep_view() == matches.deep_view().map_values(|m: DoiMatchView| doi_as_identifier(m)),
{
    let mut ids: Vec<IdentifierMatch> = Vec::new();
    let mut i: usize = 0;
    while i < matches.len()
        invariant
            i <= matches.len(),
            ids.deep_view().len() == i,
            forall|j: int|
                0 <= j < i ==> #[trigger] ids.deep_view()[j] == doi_as_identifier(
                    matches.deep_view()[j],
                ),
        decreases matches.len() - i,
    {
        let ghost before = ids.deep_view();
        let m = &matches[i];
        let id = IdentifierMatch { id: m.doi.clone(), raw: m.raw.clone(), provenance: m.provenance };
        assert(id.deep_view() == doi_as_identifier(matches.deep_view()[i as int]));
        ids.push(id);
        assert(ids.deep_view() =~= before.push(id.deep_view()));
        i += 1;
    }
    assert(ids.deep_view() =~= matches.deep_view().map_values(
        |m: DoiMatchView| doi_as_identifier(m),
    ));
    ids
}

fn arxiv_as_identifiers(matches: &Vec<ArxivMatch>) -> (ids: Vec<IdentifierMatch>)
    ensures
        ids.deep_view() == matches.deep_view().map_values(
            |m: ArxivMatchView| arxiv_as_identifier(m),
        ),
{
    let mut ids: Vec<IdentifierMatch> = Vec::new();
    let mut i: usize = 0;
    while i < matches.len()
        invariant
            i <= matches.len(),
            ids.deep_view().len() == i,
            forall|j: int|
                0 <= j < i ==> #[trigger] ids.deep_view()[j] == arxiv_as_identifier(
                    matches.deep_view()[j],
                ),
        decreases matches.len() - i,
    {
        let ghost before = ids.deep_view();
        let m = &matches[i];
        let id = IdentifierMatch {
            id: m.id.clone(),
            raw: m.raw.clone(),
            provenance: Provenance::Mined,
        };
        assert(id.deep_view() == arxiv_as_identifier(matches.deep_view()[i as int]));
        ids.push(id);
        assert(ids.deep_view() =~= before.push(id.deep_view()));
        i += 1;
    }
    assert(ids.deep_view() =~= matches.deep_view().map_values(
        |m: ArxivMatchView| arxiv_as_identifier(m),
    ));
    ids
}

/// The provenance that `doi-asserted-by` gives to the DOI field.
pub fn asserted_by(by: &Option<String>) -> (r: Option<Provenance>)
    ensures
        r == asserted_by_spec(by.deep_view()),
{
    match by {
        Some(s) => {
            if str_eq(s.as_str(), "publisher") {
                Some(Provenance::Publisher)
            } else if str_eq(s.as_str(), "crossref") {
                Some(Provenance::Crossref)
            } else {
                None
            }
        },
        None => None,
    }
}

/// The identifiers that a reference cites for the source: its candidates
/// with duplicates merged, so that each identifier stands once, in
/// first-seen order, with the strongest provenance seen for it.
pub fn extract_reference_ids(reference: &Reference, source: Source) -> (ids: Vec<IdentifierMatch>)
    ensures
        ids.deep_view() == reference_ids(reference.deep_view(), source),
{
    let mut ids: Vec<IdentifierMatch> = Vec::new();
    let ghost r = reference.deep_view();
    assert(ids.deep_view() =~= Seq::<IdentifierView>::empty());
    proof {
        lemma_merged_is_absorb_all(candidates_spec(r, source));
    }
    let is_arxiv = match source {
        Source::Arxiv => true,
        _ => false,
    };
    if is_arxiv {
        if !check_arxiv_hint(
            as_slice(&reference.doi),
            as_slice(&reference.unstructured),
            as_slice(&reference.article_title),
            as_slice(&reference.journal_title),
            as_slice(&reference.url),
        ) {
            return ids;
        }
        let fields = text_fields(reference);
        let mut i: usize = 0;
        assert(fields.deep_view().take(0) =~= Seq::<Seq<char>>::empty());
        while i < fields.len()
            invariant
                i <= fields.len(),
                ids.deep_view() == absorb_all(
                    Seq::empty(),
                    arxiv_ids_over(fields.deep_view().take(i as int)),
                ),
            decreases fields.len() - i,
        {
            let found = extract_arxiv_matches_from_text(fields[i].as_str());
            let cands = arxiv_as_identifiers(&found);
            proof {
                let done = fields.deep_view().take(i as int);
                let next = fields.deep_view().take(i + 1);
                assert(next.drop_last() =~= done);
                assert(next.last() == fields@[i as int]@);
                lemma_absorb_all_concat(Seq::empty(), arxiv_ids_over(done), cands.deep_view());
            }
            absorb_candidates(&mut ids, cands);
            i += 1;
        }
        assert(fields.deep_view().take(fields.len() as int) =~= fields.deep_view());
        ids
    } else {
        let ghost first = asserted_candidate(r);
        match (&reference.doi, asserted_by(&reference.doi_asserted_by)) {
            (Some(d), Some(p)) => {
                let c = IdentifierMatch {
                    id: normalize_doi(d.as_str()),
                    raw: d.clone(),
                    provenance: p,
                };
                assert(first =~= seq![c.deep_view()]);
                assert(first.drop_last() =~= Seq::<IdentifierView>::empty());
                assert(first.last() == c.deep_view());
                assert(absorb_all(Seq::empty(), first.drop_last()) == Seq::<
                    IdentifierView,
                >::empty());
                absorb_candidate(&mut ids, c);
            },
            _ => {
                assert(first =~= Seq::<IdentifierView>::empty());
            },
        }
        assert(ids.deep_view() == absorb_all(Seq::empty(), first));
        let fields = text_fields(reference);
        let mut i: usize = 0;
        assert(fields.deep_view().take(0) =~= Seq::<Seq<char>>::empty());
        assert(first + mined_dois_over(fields.deep_view().take(0)) =~= first);
        while i < fields.len()
            invariant
                i <= fields.len(),
                ids.deep_view() == absorb_all(
                    Seq::empty(),
                    first + mined_dois_over(fields.deep_view().take(i as int)),
                ),
            decreases fields.len() - i,
        {
            let found = extract_doi_matches_from_text(fields[i].as_str());
            let cands = dois_as_identifiers(found);
            proof {
                let done = fields.deep_view().take(i as int);
                let next = fields.deep_view().take(i + 1);
                assert(next.drop_last() =~= done);
                assert(next.last() == fields@[i as int]@);
                lemma_absorb_all_concat(
                    Seq::empty(),
                    first + mined_dois_over(done),
                    cands.deep_view(),
                );
                assert(first + mined_dois_over(next) =~= (first + mined_dois_over(done))
                    + cands.deep_view());
            }
            absorb_candidates(&mut ids, cands);
            i += 1;
        }
        assert(fields.deep_view().take(fields.len() as int) =~= fields.deep_view());
        ids
    }
}

/// The arXiv identifiers that a reference cites, and whether the reference
/// passes the hint filter. A reference that does not pass gives no
/// identifier.
pub fn extract_arxiv_from_reference(reference: &Reference) -> (r: (Vec<IdentifierMatch>, bool))
    ensures
        r.1 == has_hint(reference.deep_view()),
        r.0.deep_view() == reference_ids(reference.deep_view(), Source::Arxiv),
{
    let has_hint = check_arxiv_hint(
        as_slice(&reference.doi),
        as_slice(&reference.unstructured),
        as_slice(&reference.article_title),
        as_slice(&reference.journal_title),
        as_slice(&reference.url),
    );
    (extract_reference_ids(reference, Source::Arxiv), has_hint)
}

} // verus!
