//! The DOI index: the known DOIs of a registry and the set of their prefixes.

pub mod builder;

use crate::common::string_set::{lists_set, StringSet};
use crate::extract::doi::{doi_prefix, doi_prefix_spec};
use crate::text::{joined, lower, lowercase};
use vstd::prelude::*;

verus! {

/// What is appended to the path of a snapshot to name the file of its
/// prefixes.
pub const PREFIX_SIDECAR_SUFFIX: &'static str = ".prefixes";

/// The path of the file that holds the prefixes of the snapshot at `path`.
pub fn prefix_sidecar(path: &str) -> (r: String)
    ensures
        r@ == path@ + PREFIX_SIDECAR_SUFFIX@,
{
    joined(path, PREFIX_SIDECAR_SUFFIX)
}

/// The known DOIs of a registry, lowercased, together with the prefixes of
/// all of them.
pub struct DoiIndex {
    dois: StringSet,
    prefixes: StringSet,
}

/// The mathematical value of a [`DoiIndex`].
pub struct DoiIndexView {
    pub dois: Set<Seq<char>>,
    pub prefixes: Set<Seq<char>>,
}

impl View for DoiIndex {
    type V = DoiIndexView;

    closed spec fn view(&self) -> DoiIndexView {
        DoiIndexView { dois: self.dois@, prefixes: self.prefixes@ }
    }
}

/// Every DOI of `dois` has a prefix, and `prefixes` holds it.
pub open spec fn prefixes_cover(dois: Set<Seq<char>>, prefixes: Set<Seq<char>>) -> bool {
    forall|d: Seq<char>| #[trigger]
        dois.contains(d) ==> match doi_prefix_spec(d) {
            Some(p) => prefixes.contains(p),
            None => false,
        }
}

/// The index after `doi` is offered to it: a DOI that has a prefix once
/// lowercased is stored lowercased, with its prefix; any other is discarded.
pub open spec fn inserted(v: DoiIndexView, doi: Seq<char>) -> DoiIndexView {
    match doi_prefix_spec(lower(doi)) {
        Some(p) => DoiIndexView { dois: v.dois.insert(lower(doi)), prefixes: v.prefixes.insert(p) },
        None => v,
    }
}

/// The index after each DOI of `dois` is offered to it in turn.
pub open spec fn inserted_all(v: DoiIndexView, dois: Seq<Seq<char>>) -> DoiIndexView
    decreases dois.len(),
{
    if dois.len() == 0 {
        v
    } else {
        inserted(inserted_all(v, dois.drop_last()), dois.last())
    }
}

/// The index after a DOI is taken back as it stands in a snapshot: it is
/// kept, with its prefix, when it has a prefix; any other is left out.
pub open spec fn restored(v: DoiIndexView, doi: Seq<char>) -> DoiIndexView {
    match doi_prefix_spec(doi) {
        Some(p) => DoiIndexView { dois: v.dois.insert(doi), prefixes: v.prefixes.insert(p) },
        None => v,
    }
}

/// The index after each DOI of `dois` is taken back in turn.
pub open spec fn restored_all(v: DoiIndexView, dois: Seq<Seq<char>>) -> DoiIndexView
    decreases dois.len(),
{
    if dois.len() == 0 {
        v
    } else {
        restored(restored_all(v, dois.drop_last()), dois.last())
    }
}

/// The index with one more prefix, as it stands.
pub open spec fn with_prefix(v: DoiIndexView, prefix: Seq<char>) -> DoiIndexView {
    DoiIndexView { dois: v.dois, prefixes: v.prefixes.insert(prefix) }
}

/// The index with the prefixes of `prefixes` added, as they stand.
pub open spec fn with_prefixes(v: DoiIndexView, prefixes: Seq<Seq<char>>) -> DoiIndexView
    decreases prefixes.len(),
{
    if prefixes.len() == 0 {
        v
    } else {
        with_prefix(with_prefixes(v, prefixes.drop_last()), prefixes.last())
    }
}

/// The index that a snapshot gives: its DOIs that have a prefix, as they
/// stand, with the prefix of each; and the prefixes of the sidecar besides,
/// when there is one.
pub open spec fn snapshot_view(
    dois: Seq<Seq<char>>,
    prefixes: Option<Seq<Seq<char>>>,
) -> DoiIndexView {
    let base = restored_all(DoiIndex::empty_view(), dois);
    match prefixes {
        Some(list) => with_prefixes(base, list),
        None => base,
    }
}

/// What taking DOIs back adds: each DOI of the list that has a prefix, and
/// the prefix of each.
pub proof fn lemma_restored_all(v: DoiIndexView, dois: Seq<Seq<char>>)
    ensures
        forall|d: Seq<char>| #[trigger]
            restored_all(v, dois).dois.contains(d) <==> (v.dois.contains(d) || exists|i: int|
                0 <= i < dois.len() && #[trigger] dois[i] == d && doi_prefix_spec(dois[i])
                    is Some),
        forall|p: Seq<char>| #[trigger]
            restored_all(v, dois).prefixes.contains(p) <==> (v.prefixes.contains(p) || exists|
                i: int,
            |
                0 <= i < dois.len() && doi_prefix_spec(#[trigger] dois[i]) == Some(p)),
    decreases dois.len(),
{
    if dois.len() > 0 {
        let before = dois.drop_last();
        lemma_restored_all(v, before);
        let r = restored_all(v, dois);
        let rb = restored_all(v, before);
        assert forall|d: Seq<char>|
            r.dois.contains(d) <==> (v.dois.contains(d) || exists|i: int|
                0 <= i < dois.len() && #[trigger] dois[i] == d && doi_prefix_spec(dois[i])
                    is Some) by {
            if rb.dois.contains(d) && !v.dois.contains(d) {
                let i = choose|i: int|
                    0 <= i < before.len() && #[trigger] before[i] == d && doi_prefix_spec(
                        before[i],
                    ) is Some;
                assert(dois[i] == d);
            }
            if r.dois.contains(d) && !rb.dois.contains(d) {
                assert(dois[dois.len() - 1] == d);
            }
            if exists|i: int|
                0 <= i < dois.len() && #[trigger] dois[i] == d && doi_prefix_spec(dois[i])
                    is Some {
                let i = choose|i: int|
                    0 <= i < dois.len() && #[trigger] dois[i] == d && doi_prefix_spec(dois[i])
                        is Some;
                if i < before.len() {
                    assert(before[i] == d);
                }
            }
        }
        assert forall|p: Seq<char>|
            r.prefixes.contains(p) <==> (v.prefixes.contains(p) || exists|i: int|
                0 <= i < dois.len() && doi_prefix_spec(#[trigger] dois[i]) == Some(p)) by {
            if rb.prefixes.contains(p) && !v.prefixes.contains(p) {
                let i = choose|i: int|
                    0 <= i < before.len() && doi_prefix_spec(#[trigger] before[i]) == Some(p);
                assert(doi_prefix_spec(dois[i]) == Some(p));
            }
            if r.prefixes.contains(p) && !rb.prefixes.contains(p) {
                assert(doi_prefix_spec(dois[dois.len() - 1]) == Some(p));
            }
            if exists|i: int|
                0 <= i < dois.len() && doi_prefix_spec(#[trigger] dois[i]) == Some(p) {
                let i = choose|i: int|
                    0 <= i < dois.len() && doi_prefix_spec(#[trigger] dois[i]) == Some(p);
                if i < before.len() {
                    assert(doi_prefix_spec(before[i]) == Some(p));
                }
            }
        }
    }
}

/// What adding prefixes adds: each prefix of the list, and no DOI.
pub proof fn lemma_with_prefixes(v: DoiIndexView, prefixes: Seq<Seq<char>>)
    ensures
        with_prefixes(v, prefixes).dois == v.dois,
        forall|p: Seq<char>| #[trigger]
            with_prefixes(v, prefixes).prefixes.contains(p) <==> (v.prefixes.contains(p)
                || exists|i: int| 0 <= i < prefixes.len() && #[trigger] prefixes[i] == p),
    decreases prefixes.len(),
{
    if prefixes.len() > 0 {
        let before = prefixes.drop_last();
        lemma_with_prefixes(v, before);
        let r = with_prefixes(v, prefixes);
        let rb = with_prefixes(v, before);
        assert forall|p: Seq<char>|
            r.prefixes.contains(p) <==> (v.prefixes.contains(p) || exists|i: int|
                0 <= i < prefixes.len() && #[trigger] prefixes[i] == p) by {
            if rb.prefixes.contains(p) && !v.prefixes.contains(p) {
                let i = choose|i: int| 0 <= i < before.len() && #[trigger] before[i] == p;
                assert(prefixes[i] == p);
            }
            if r.prefixes.contains(p) && !rb.prefixes.contains(p) {
                assert(prefixes[prefixes.len() - 1] == p);
            }
            if exists|i: int| 0 <= i < prefixes.len() && #[trigger] prefixes[i] == p {
                let i = choose|i: int| 0 <= i < prefixes.len() && #[trigger] prefixes[i] == p;
                if i < before.len() {
                    assert(before[i] == p);
                }
            }
        }
    }
}

impl DoiIndex {
    /// Both sets are well formed, and every stored DOI has its prefix stored.
    pub closed spec fn wf(&self) -> bool {
        &&& self.dois.wf()
        &&& self.prefixes.wf()
        &&& prefixes_cover(self.dois@, self.prefixes@)
    }

    /// The stored DOIs in the order of their first insertion.
    pub closed spec fn doi_list(&self) -> Seq<Seq<char>> {
        self.dois.list()
    }

    /// The stored prefixes in the order of their first insertion.
    pub closed spec fn prefix_list(&self) -> Seq<Seq<char>> {
        self.prefixes.list()
    }

    /// An empty index.
    pub fn new() -> (idx: Self)
        ensures
            idx.wf(),
            idx@.dois == Set::<Seq<char>>::empty(),
            idx@.prefixes == Set::<Seq<char>>::empty(),
    {
        DoiIndex { dois: StringSet::new(), prefixes: StringSet::new() }
    }

    /// An empty index with room for the given numbers of DOIs and prefixes.
    pub fn with_capacity(doi_capacity: usize, prefix_capacity: usize) -> (idx: Self)
        ensures
            idx.wf(),
            idx@.dois == Set::<Seq<char>>::empty(),
            idx@.prefixes == Set::<Seq<char>>::empty(),
    {
        DoiIndex {
            dois: StringSet::with_capacity(doi_capacity),
            prefixes: StringSet::with_capacity(prefix_capacity),
        }
    }

    /// Offers a DOI to the index. It is lowercased; when it then has a prefix
    /// (it begins with `10.` and holds a slash) it is stored and its prefix
    /// with it; otherwise it is discarded as ill-formed.
    pub fn insert(&mut self, doi: &str)
        requires
            old(self).wf(),
        ensures
            final(self).wf(),
            final(self)@ == inserted(old(self)@, doi@),
    {
        let doi_lower = lowercase(doi);
        match doi_prefix(doi_lower.as_str()) {
            Some(prefix) => {
                self.prefixes.insert(prefix);
                self.dois.insert(doi_lower);
            },
            None => {},
        }
    }

    /// Whether the DOI is in the index, whatever its case.
    pub fn contains(&self, doi: &str) -> (r: bool)
        ensures
            r == self@.dois.contains(lower(doi@)),
    {
        let doi_lower = lowercase(doi);
        self.dois.contains(doi_lower.as_str())
    }

    /// Whether the prefix is in the index, whatever its case.
    pub fn has_prefix(&self, prefix: &str) -> (r: bool)
        ensures
            r == self@.prefixes.contains(lower(prefix@)),
    {
        let prefix_lower = lowercase(prefix);
        self.prefixes.contains(prefix_lower.as_str())
    }

    /// The number of DOIs.
    pub fn len(&self) -> (n: usize)
        ensures
            n == self@.dois.len(),
    {
        self.dois.len()
    }

    /// Whether the index holds no DOI.
    pub fn is_empty(&self) -> (r: bool)
        ensures
            r == self@.dois.is_empty(),
    {
        self.dois.is_empty()
    }

    /// The number of distinct prefixes.
    pub fn prefix_count(&self) -> (n: usize)
        ensures
            n == self@.prefixes.len(),
    {
        self.prefixes.len()
    }

    /// Merges another index into this one.
    pub fn merge(&mut self, other: DoiIndex)
        requires
            old(self).wf(),
            other.wf(),
        ensures
            final(self).wf(),
            final(self)@.dois == old(self)@.dois.union(other@.dois),
            final(self)@.prefixes == old(self)@.prefixes.union(other@.prefixes),
    {
        let more_prefixes = other.prefixes.items();
        let mut i: usize = 0;
        proof {
            other.prefixes.lemma_wf();
            other.dois.lemma_wf();
        }
        while i < more_prefixes.len()
            invariant
                i <= more_prefixes.len(),
                self.wf(),
                self.dois == old(self).dois,
                more_prefixes.deep_view() == other.prefixes.list(),
                forall|s: Seq<char>| #[trigger]
                    self.prefixes@.contains(s) <==> (old(self).prefixes@.contains(s) || exists|k: int|
                        0 <= k < i && other.prefixes.list()[k] == s),
            decreases more_prefixes.len() - i,
        {
            assert(more_prefixes.deep_view()[i as int] == more_prefixes@[i as int]@);
            self.prefixes.insert(more_prefixes[i].clone());
            i += 1;
        }
        assert(self.prefixes@ =~= old(self).prefixes@.union(other.prefixes@));
        let more_dois = other.dois.items();
        let mut j: usize = 0;
        while j < more_dois.len()
            invariant
                j <= more_dois.len(),
                self.dois.wf(),
                self.prefixes.wf(),
                more_dois.deep_view() == other.dois.list(),
                self.prefixes@ == old(self).prefixes@.union(other.prefixes@),
                forall|s: Seq<char>| #[trigger]
                    self.dois@.contains(s) <==> (old(self).dois@.contains(s) || exists|k: int|
                        0 <= k < j && other.dois.list()[k] == s),
                lists_set(other.dois.list(), other.dois@),
            decreases more_dois.len() - j,
        {
            assert(more_dois.deep_view()[j as int] == more_dois@[j as int]@);
            self.dois.insert(more_dois[j].clone());
            j += 1;
        }
        assert(self.dois@ =~= old(self).dois@.union(other.dois@));
    }

    /// The stored DOIs, in the order of their first insertion.
    pub fn dois(&self) -> (list: &Vec<String>)
        ensures
            list.deep_view() == self.doi_list(),
            self.wf() ==> lists_set(self.doi_list(), self@.dois),
    {
        self.dois.items()
    }

    /// The stored prefixes, in the order of their first insertion.
    pub fn prefixes(&self) -> (list: &Vec<String>)
        ensures
            list.deep_view() == self.prefix_list(),
            self.wf() ==> lists_set(self.prefix_list(), self@.prefixes),
    {
        self.prefixes.items()
    }

    /// Adds a prefix as it stands in a snapshot.
    pub fn add_prefix(&mut self, prefix: &str)
        requires
            old(self).wf(),
        ensures
            final(self).wf(),
            final(self)@.dois == old(self)@.dois,
            final(self)@.prefixes == old(self)@.prefixes.insert(prefix@),
            final(self)@ == with_prefix(old(self)@, prefix@),
    {
        self.prefixes.insert(prefix.to_owned());
    }

    /// Takes a DOI back as it stands in a snapshot: it is kept as it is,
    /// with its prefix, when it has a prefix, and dropped otherwise.
    pub fn restore(&mut self, doi: &str)
        requires
            old(self).wf(),
        ensures
            final(self).wf(),
            final(self)@ == restored(old(self)@, doi@),
    {
        match doi_prefix(doi) {
            Some(prefix) => {
                self.prefixes.insert(prefix);
                self.dois.insert(doi.to_owned());
            },
            None => {},
        }
    }

    /// Rebuilds an index from a snapshot. The DOIs are taken as they stand,
    /// those without a prefix left out, and the prefix of each is derived
    /// from it; the prefixes of the sidecar, when there is one, are added as
    /// they stand. A snapshot of a well-formed index gives that index back
    /// (see [`DoiIndex::lemma_snapshot_round_trip`]).
    pub fn from_snapshot(dois: &Vec<String>, prefixes: Option<&Vec<String>>) -> (idx: Self)
        ensures
            idx.wf(),
            idx@ == snapshot_view(dois.deep_view(), prefixes.deep_view()),
    {
        let mut idx = DoiIndex::with_capacity(dois.len(), 0);
        let ghost all = dois.deep_view();
        let mut i: usize = 0;
        assert(all.take(0) =~= Seq::<Seq<char>>::empty());
        while i < dois.len()
            invariant
                i <= dois.len(),
                all == dois.deep_view(),
                idx.wf(),
                idx@ == restored_all(DoiIndex::empty_view(), all.take(i as int)),
            decreases dois.len() - i,
        {
            assert(all.take(i + 1).drop_last() =~= all.take(i as int));
            assert(all.take(i + 1).last() == dois@[i as int]@);
            idx.restore(dois[i].as_str());
            i += 1;
        }
        assert(all.take(dois.len() as int) =~= all);
        match prefixes {
            Some(list) => {
                let ghost base = idx@;
                let ghost extra = list.deep_view();
                let mut k: usize = 0;
                assert(extra.take(0) =~= Seq::<Seq<char>>::empty());
                while k < list.len()
                    invariant
                        k <= list.len(),
                        extra == list.deep_view(),
                        idx.wf(),
                        idx@ == with_prefixes(base, extra.take(k as int)),
                    decreases list.len() - k,
                {
                    assert(extra.take(k + 1).drop_last() =~= extra.take(k as int));
                    assert(extra.take(k + 1).last() == list@[k as int]@);
                    idx.add_prefix(list[k].as_str());
                    k += 1;
                }
                assert(extra.take(list.len() as int) =~= extra);
            },
            None => {},
        }
        idx
    }

    /// Saving and loading gives the same index: the snapshot of a
    /// well-formed index, its list of DOIs and its list of prefixes, is
    /// rebuilt to an index of the same DOIs and the same prefixes. Without
    /// the list of prefixes the same DOIs come back, and the prefixes are
    /// those of the DOIs.
    pub proof fn lemma_snapshot_round_trip(&self)
        requires
            self.wf(),
        ensures
            snapshot_view(self.doi_list(), Some(self.prefix_list())) == self@,
            snapshot_view(self.doi_list(), None).dois == self@.dois,
            forall|p: Seq<char>|
                snapshot_view(self.doi_list(), None).prefixes.contains(p) <==> exists|
                    d: Seq<char>,
                | #[trigger] self@.dois.contains(d) && doi_prefix_spec(d) == Some(p),
    {
        let dois = self.doi_list();
        let plist = self.prefix_list();
        let base = restored_all(DoiIndex::empty_view(), dois);
        let full = with_prefixes(base, plist);
        self.dois.lemma_wf();
        self.prefixes.lemma_wf();
        lemma_restored_all(DoiIndex::empty_view(), dois);
        lemma_with_prefixes(base, plist);
        assert(lists_set(dois, self@.dois));
        assert(lists_set(plist, self@.prefixes));
        assert(prefixes_cover(self@.dois, self@.prefixes));
        assert forall|d: Seq<char>| base.dois.contains(d) <==> self@.dois.contains(d) by {
            if self@.dois.contains(d) {
                let i = choose|i: int| 0 <= i < dois.len() && dois[i] == d;
                assert(doi_prefix_spec(d) is Some);
                assert(0 <= i < dois.len() && dois[i] == d && doi_prefix_spec(dois[i]) is Some);
                assert(base.dois.contains(d));
            }
            if base.dois.contains(d) {
                let i = choose|i: int|
                    0 <= i < dois.len() && #[trigger] dois[i] == d && doi_prefix_spec(dois[i])
                        is Some;
                assert(self@.dois.contains(dois[i]));
            }
        }
        assert(base.dois =~= self@.dois);
        assert forall|p: Seq<char>| full.prefixes.contains(p) <==> self@.prefixes.contains(
            p,
        ) by {
            if self@.prefixes.contains(p) {
                let j = choose|j: int| 0 <= j < plist.len() && plist[j] == p;
                assert(plist[j] == p);
            }
            if base.prefixes.contains(p) {
                let i = choose|i: int|
                    0 <= i < dois.len() && doi_prefix_spec(#[trigger] dois[i]) == Some(p);
                assert(self@.dois.contains(dois[i]));
            }
        }
        assert(full.prefixes =~= self@.prefixes);
        assert(full.dois == base.dois);
        assert forall|p: Seq<char>|
            base.prefixes.contains(p) <==> exists|d: Seq<char>| #[trigger]
                self@.dois.contains(d) && doi_prefix_spec(d) == Some(p) by {
            if base.prefixes.contains(p) {
                let i = choose|i: int|
                    0 <= i < dois.len() && doi_prefix_spec(#[trigger] dois[i]) == Some(p);
                assert(self@.dois.contains(dois[i]) && doi_prefix_spec(dois[i]) == Some(p));
            }
            if exists|d: Seq<char>| #[trigger]
                self@.dois.contains(d) && doi_prefix_spec(d) == Some(p) {
                let d = choose|d: Seq<char>| #[trigger]
                    self@.dois.contains(d) && doi_prefix_spec(d) == Some(p);
                let i = choose|i: int| 0 <= i < dois.len() && dois[i] == d;
                assert(doi_prefix_spec(dois[i]) == Some(p));
            }
        }
    }

    /// The value of an empty index.
    pub open spec fn empty_view() -> DoiIndexView {
        DoiIndexView { dois: Set::empty(), prefixes: Set::empty() }
    }

    /// Offers each DOI of `dois` to the index, in order.
    pub fn insert_all(&mut self, dois: &Vec<String>)
        requires
            old(self).wf(),
        ensures
            final(self).wf(),
            final(self)@ == inserted_all(old(self)@, dois.deep_view()),
    {
        let mut i: usize = 0;
        assert(dois.deep_view().take(0) =~= Seq::empty());
        while i < dois.len()
            invariant
                i <= dois.len(),
                self.wf(),
                self@ == inserted_all(old(self)@, dois.deep_view().take(i as int)),
            decreases dois.len() - i,
        {
            assert(dois.deep_view().take(i + 1).drop_last() =~= dois.deep_view().take(i as int));
            assert(dois.deep_view().take(i + 1).last() == dois@[i as int]@);
            self.insert(dois[i].as_str());
            i += 1;
        }
        assert(dois.deep_view().take(dois.len() as int) =~= dois.deep_view());
    }

    /// Whoever is in the index has its prefix in the index.
    pub proof fn lemma_contains_has_prefix(&self, d: Seq<char>)
        requires
            self.wf(),
            self@.dois.contains(d),
        ensures
            doi_prefix_spec(d) is Some,
            self@.prefixes.contains(doi_prefix_spec(d)->0),
    {
    }
}

impl Default for DoiIndex {
    fn default() -> (idx: Self)
        ensures
            idx.wf(),
            idx@.dois == Set::<Seq<char>>::empty(),
            idx@.prefixes == Set::<Seq<char>>::empty(),
    {
        DoiIndex::new()
    }
}

} // verus!
