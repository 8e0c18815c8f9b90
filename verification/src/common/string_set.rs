//! A set of strings that remembers the order in which its members came.

use vstd::hash_set::StringHashSet;
use vstd::prelude::*;

verus! {

/// A set of strings with constant-time membership, whose members can also be
/// listed, in the order of their first insertion.
pub struct StringSet {
    items: Vec<String>,
    index: StringHashSet,
}

impl View for StringSet {
    type V = Set<Seq<char>>;

    closed spec fn view(&self) -> Set<Seq<char>> {
        self.index@
    }
}

/// `list` holds every member of `set` once, and nothing else.
pub open spec fn lists_set(list: Seq<Seq<char>>, set: Set<Seq<char>>) -> bool {
    &&& forall|i: int| 0 <= i < list.len() ==> set.contains(#[trigger] list[i])
    &&& forall|s: Seq<char>| set.contains(s) ==> exists|i: int| 0 <= i < list.len() && list[i] == s
    &&& forall|i: int, j: int| 0 <= i < j < list.len() ==> list[i] != list[j]
}

impl StringSet {
    /// The list and the index hold the same members, the list each once.
    pub closed spec fn wf(&self) -> bool {
        lists_set(self.items.deep_view(), self.index@)
    }

    /// The members in the order of their first insertion.
    pub closed spec fn list(&self) -> Seq<Seq<char>> {
        self.items.deep_view()
    }

    /// An empty set.
    pub fn new() -> (s: Self)
        ensures
            s.wf(),
            s@ == Set::<Seq<char>>::empty(),
            s.list() == Seq::<Seq<char>>::empty(),
    {
        let items: Vec<String> = Vec::new();
        assert(items.deep_view() =~= Seq::empty());
        StringSet { items, index: StringHashSet::new() }
    }

    /// An empty set with room for `capacity` members.
    pub fn with_capacity(capacity: usize) -> (s: Self)
        ensures
            s.wf(),
            s@ == Set::<Seq<char>>::empty(),
            s.list() == Seq::<Seq<char>>::empty(),
    {
        let items: Vec<String> = Vec::with_capacity(capacity);
        assert(items.deep_view() =~= Seq::empty());
        StringSet { items, index: StringHashSet::with_capacity(capacity) }
    }

    /// Adds `value`; returns whether it was new.
    pub fn insert(&mut self, value: String) -> (added: bool)
        requires
            old(self).wf(),
        ensures
            final(self).wf(),
            final(self)@ == old(self)@.insert(value@),
            added == !old(self)@.contains(value@),
            final(self).list() == (if added {
                old(self).list().push(value@)
            } else {
                old(self).list()
            }),
    {
        if self.index.contains(value.as_str()) {
            assert(self.index@.insert(value@) =~= self.index@);
            false
        } else {
            let ghost before = self.items.deep_view();
            self.index.insert(value.clone());
            self.items.push(value);
            proof {
                let after = self.items.deep_view();
                let set_before = old(self).index@;
                assert(after =~= before.push(value@));
                assert forall|i: int| 0 <= i < after.len() implies self.index@.contains(
                    #[trigger] after[i],
                ) by {
                    if i < before.len() {
                        assert(set_before.contains(before[i]));
                    }
                }
                assert forall|s: Seq<char>| self.index@.contains(s) implies exists|i: int|
                    0 <= i < after.len() && after[i] == s by {
                    if s == value@ {
                        assert(after[before.len() as int] == s);
                    } else {
                        let i = choose|i: int| 0 <= i < before.len() && before[i] == s;
                        assert(after[i] == s);
                    }
                }
                assert forall|i: int, j: int| 0 <= i < j < after.len() implies after[i]
                    != after[j] by {
                    assert(set_before.contains(before[i]));
                    if j < before.len() {
                        assert(before[i] != before[j]);
                    }
                }
            }
            true
        }
    }

    /// Whether `value` is a member.
    pub fn contains(&self, value: &str) -> (r: bool)
        ensures
            r == self@.contains(value@),
    {
        self.index.contains(value)
    }

    /// The number of members.
    pub fn len(&self) -> (n: usize)
        ensures
            n == self@.len(),
            self.wf() ==> n == self.list().len(),
    {
        broadcast use vstd::hash_set::group_hash_set_axioms;
        let n = self.index.len();
        proof {
            if self.wf() {
                lemma_list_len(self.items.deep_view(), self.index@);
            }
        }
        n
    }

    /// Whether the set has no member.
    pub fn is_empty(&self) -> (r: bool)
        ensures
            r == self@.is_empty(),
    {
        self.index.is_empty()
    }

    /// The members, in the order of their first insertion.
    pub fn items(&self) -> (list: &Vec<String>)
        ensures
            list.deep_view() == self.list(),
            self.wf() ==> lists_set(self.list(), self@),
    {
        &self.items
    }

    /// What well-formedness says of the list and the set.
    pub proof fn lemma_wf(&self)
        requires
            self.wf(),
        ensures
            lists_set(self.list(), self@),
            self@.finite(),
            self@.len() == self.list().len(),
    {
        lemma_list_len(self.items.deep_view(), self.index@);
    }
}

/// A list of a set is as long as the set is large.
pub proof fn lemma_list_len(list: Seq<Seq<char>>, set: Set<Seq<char>>)
    requires
        lists_set(list, set),
    ensures
        set.finite(),
        set.len() == list.len(),
    decreases list.len(),
{
    if list.len() == 0 {
        assert(set =~= Set::empty());
    } else {
        let last = list.last();
        let rest = list.drop_last();
        let smaller = set.remove(last);
        assert forall|s: Seq<char>| smaller.contains(s) implies exists|i: int|
            0 <= i < rest.len() && rest[i] == s by {
            let i = choose|i: int| 0 <= i < list.len() && list[i] == s;
            assert(rest[i] == s);
        }
        assert forall|i: int| 0 <= i < rest.len() implies smaller.contains(#[trigger] rest[i]) by {
            assert(list[i] == rest[i]);
        }
        lemma_list_len(rest, smaller);
        assert(set =~= smaller.insert(last));
    }
}

} // verus!
