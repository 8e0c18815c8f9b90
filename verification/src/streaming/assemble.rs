//! Global assembly: the entries of all partitions in one list, sorted by
//! citation count, the most cited first.

use crate::streaming::checkpoint::Checkpoint;
use crate::streaming::partition_invert::{InvertedEntry, InvertedEntryView};
use crate::text::{
    chars_of, lemma_lex_lt_asymmetric, lemma_lex_lt_total, lemma_lex_lt_transitive, lex_lt, str_lt,
};
use vstd::prelude::*;

verus! {

/// `a` comes before `b` in the final order: it has the larger citation
/// count, or the same count and the smaller identifier.
pub open spec fn precedes(a: InvertedEntryView, b: InvertedEntryView) -> bool {
    a.citation_count > b.citation_count || (a.citation_count == b.citation_count && lex_lt(
        a.cited_id,
        b.cited_id,
    ))
}

/// No entry stands directly behind one that it should precede.
pub open spec fn in_order(s: Seq<InvertedEntryView>) -> bool {
    forall|i: int| 0 <= i < s.len() - 1 ==> !precedes(#[trigger] s[i + 1], s[i])
}

/// No entry stands anywhere behind one that it should precede.
pub open spec fn in_order_throughout(s: Seq<InvertedEntryView>) -> bool {
    forall|i: int, j: int| 0 <= i < j < s.len() ==> !precedes(s[j], s[i])
}

/// The citation counts never rise along the list.
pub open spec fn counts_descend(s: Seq<InvertedEntryView>) -> bool {
    forall|i: int, j: int| 0 <= i < j < s.len() ==> s[i].citation_count >= s[j].citation_count
}

/// The lists of `parts`, one after the other.
pub open spec fn flattened(parts: Seq<Seq<InvertedEntryView>>) -> Seq<InvertedEntryView>
    decreases parts.len(),
{
    if parts.len() == 0 {
        Seq::empty()
    } else {
        flattened(parts.drop_last()) + parts.last()
    }
}

/// `out` holds the entries of `parts`, each as often as they do, in order.
pub open spec fn is_assembly_of(
    out: Seq<InvertedEntryView>,
    parts: Seq<Seq<InvertedEntryView>>,
) -> bool {
    &&& out.to_multiset() == flattened(parts).to_multiset()
    &&& in_order(out)
    &&& in_order_throughout(out)
    &&& counts_descend(out)
}

/// The names that are not in `done`, in order.
pub open spec fn pending(names: Seq<Seq<char>>, done: Set<Seq<char>>) -> Seq<Seq<char>>
    decreases names.len(),
{
    if names.len() == 0 {
        Seq::empty()
    } else {
        let rest = pending(names.drop_last(), done);
        if done.contains(names.last()) {
            rest
        } else {
            rest.push(names.last())
        }
    }
}

// ---------------------------------------------------------------------------
// Lemmas
// ---------------------------------------------------------------------------

/// Of two entries, at most one precedes the other.
pub proof fn lemma_precedes_asymmetric(a: InvertedEntryView, b: InvertedEntryView)
    ensures
        precedes(a, b) ==> !precedes(b, a),
{
    lemma_lex_lt_asymmetric(a.cited_id, b.cited_id);
}

/// Ties are broken by the identifier: two entries of which neither precedes
/// the other have the same citation count and the same identifier.
pub proof fn lemma_precedes_decides(a: InvertedEntryView, b: InvertedEntryView)
    ensures
        !precedes(a, b) && !precedes(b, a) ==> a.citation_count == b.citation_count && a.cited_id
            == b.cited_id,
{
    lemma_lex_lt_total(a.cited_id, b.cited_id);
}

/// When `z` precedes `x`, every entry `y` is preceded by `z` or precedes `x`.
pub proof fn lemma_precedes_splits(x: InvertedEntryView, y: InvertedEntryView, z: InvertedEntryView)
    requires
        precedes(z, x),
    ensures
        precedes(z, y) || precedes(y, x),
{
    if !precedes(z, y) && !precedes(y, x) {
        if y.citation_count == z.citation_count && y.citation_count == x.citation_count {
            lemma_lex_lt_total(z.cited_id, y.cited_id);
            lemma_lex_lt_total(y.cited_id, x.cited_id);
            if lex_lt(y.cited_id, z.cited_id) {
                lemma_lex_lt_transitive(y.cited_id, z.cited_id, x.cited_id);
            } else if lex_lt(x.cited_id, y.cited_id) {
                lemma_lex_lt_transitive(z.cited_id, x.cited_id, y.cited_id);
            }
        }
    }
}

/// A list without a violation between neighbours has none at all: every
/// entry stands before all entries that it precedes.
pub proof fn lemma_in_order_throughout(s: Seq<InvertedEntryView>)
    requires
        in_order(s),
    ensures
        in_order_throughout(s),
{
    assert forall|i: int, j: int| 0 <= i < j < s.len() implies !precedes(s[j], s[i]) by {
        lemma_no_violation_between(s, i, j);
    }
}

proof fn lemma_no_violation_between(s: Seq<InvertedEntryView>, i: int, j: int)
    requires
        in_order(s),
        0 <= i < j < s.len(),
    ensures
        !precedes(s[j], s[i]),
    decreases j - i,
{
    if i + 1 < j {
        lemma_no_violation_between(s, i, j - 1);
        assert(!precedes(s[(j - 1) + 1], s[j - 1]));
        if precedes(s[j], s[i]) {
            lemma_precedes_splits(s[i], s[j - 1], s[j]);
        }
    } else {
        assert(!precedes(s[i + 1], s[i]));
    }
}

/// In a list that is in order, the citation counts never rise.
pub proof fn lemma_in_order_counts(s: Seq<InvertedEntryView>)
    requires
        in_order(s),
    ensures
        counts_descend(s),
{
    assert forall|i: int, j: int| 0 <= i < j < s.len() implies s[i].citation_count
        >= s[j].citation_count by {
        lemma_counts_between(s, i, j);
    }
}

proof fn lemma_counts_between(s: Seq<InvertedEntryView>, i: int, j: int)
    requires
        in_order(s),
        0 <= i <= j < s.len(),
    ensures
        s[i].citation_count >= s[j].citation_count,
    decreases j - i,
{
    if i < j {
        lemma_counts_between(s, i, j - 1);
        assert(!precedes(s[(j - 1) + 1], s[j - 1]));
    }
}

/// Flattening a concatenation is concatenating the flattenings.
pub proof fn lemma_flattened_concat(
    a: Seq<Seq<InvertedEntryView>>,
    b: Seq<Seq<InvertedEntryView>>,
)
    ensures
        flattened(a + b) == flattened(a) + flattened(b),
    decreases b.len(),
{
    if b.len() == 0 {
        assert(a + b =~= a);
        assert(flattened(a) + flattened(b) =~= flattened(a));
    } else {
        assert((a + b).drop_last() =~= a + b.drop_last());
        lemma_flattened_concat(a, b.drop_last());
        assert(flattened(a + b) =~= flattened(a) + flattened(b));
    }
}

/// Taking one list out of `parts` takes its entries out of the flattening.
proof fn lemma_flattened_remove(parts: Seq<Seq<InvertedEntryView>>, k: int)
    requires
        0 <= k < parts.len(),
    ensures
        flattened(parts).to_multiset() == flattened(parts.remove(k)).to_multiset().add(
            parts[k].to_multiset(),
        ),
{
    broadcast use {vstd::seq_lib::group_to_multiset_ensures, vstd::multiset::group_multiset_axioms};
    let head = parts.subrange(0, k);
    let tail = parts.subrange(k + 1, parts.len() as int);
    let one = seq![parts[k]];
    assert(parts =~= head + one + tail);
    assert(parts.remove(k) =~= head + tail);
    lemma_flattened_concat(head + one, tail);
    lemma_flattened_concat(head, one);
    lemma_flattened_concat(head, tail);
    assert(one.drop_last() =~= Seq::<Seq<InvertedEntryView>>::empty());
    assert(flattened(one.drop_last()) =~= Seq::<InvertedEntryView>::empty());
    assert(one.last() == parts[k]);
    assert(flattened(one) =~= parts[k]);
    vstd::seq_lib::lemma_multiset_commutative(flattened(head) + parts[k], flattened(tail));
    vstd::seq_lib::lemma_multiset_commutative(flattened(head), parts[k]);
    vstd::seq_lib::lemma_multiset_commutative(flattened(head), flattened(tail));
    assert(flattened(parts).to_multiset() =~= flattened(parts.remove(k)).to_multiset().add(
        parts[k].to_multiset(),
    ));
}

/// The entries of the flattening do not depend on the order of the lists.
pub proof fn lemma_flattened_order_free(
    a: Seq<Seq<InvertedEntryView>>,
    b: Seq<Seq<InvertedEntryView>>,
)
    requires
        a.to_multiset() == b.to_multiset(),
    ensures
        flattened(a).to_multiset() == flattened(b).to_multiset(),
    decreases a.len(),
{
    broadcast use {vstd::seq_lib::group_to_multiset_ensures, vstd::multiset::group_multiset_axioms};
    a.to_multiset_ensures();
    b.to_multiset_ensures();
    if a.len() == 0 {
        assert(b.len() == 0);
    } else {
        let last = a.last();
        assert(a.to_multiset().count(last) > 0);
        assert(b.to_multiset().count(last) > 0);
        assert(b.contains(last));
        let k = choose|k: int| 0 <= k < b.len() && b[k] == last;
        let a1 = a.drop_last();
        let b1 = b.remove(k);
        assert(a1 =~= a.remove(a.len() - 1));
        vstd::seq_lib::to_multiset_remove(a, a.len() - 1);
        vstd::seq_lib::to_multiset_remove(b, k);
        assert(a1.to_multiset() =~= b1.to_multiset());
        lemma_flattened_order_free(a1, b1);
        lemma_flattened_remove(a, a.len() - 1);
        lemma_flattened_remove(b, k);
    }
}

/// Resuming gives what an uninterrupted run gives: when the inverted
/// partitions of a resumed run (those finished before the interruption, and
/// those inverted after it) are the inverted partitions of the single run,
/// in whatever order, the two assembled outputs hold the same entries, each
/// as often.
pub proof fn lemma_resume_equivalence(
    done: Seq<Seq<InvertedEntryView>>,
    rest: Seq<Seq<InvertedEntryView>>,
    single: Seq<Seq<InvertedEntryView>>,
    out_resumed: Seq<InvertedEntryView>,
    out_single: Seq<InvertedEntryView>,
)
    requires
        (done + rest).to_multiset() == single.to_multiset(),
        is_assembly_of(out_resumed, done + rest),
        is_assembly_of(out_single, single),
    ensures
        out_resumed.to_multiset() == out_single.to_multiset(),
{
    lemma_flattened_order_free(done + rest, single);
}

/// No pending name is done, and every name that is not done is pending.
pub proof fn lemma_pending(names: Seq<Seq<char>>, done: Set<Seq<char>>)
    ensures
        forall|i: int|
            0 <= i < pending(names, done).len() ==> !done.contains(#[trigger] pending(names, done)[i])
                && names.contains(pending(names, done)[i]),
        forall|i: int|
            0 <= i < names.len() && !done.contains(#[trigger] names[i]) ==> pending(
                names,
                done,
            ).contains(names[i]),
    decreases names.len(),
{
    if names.len() > 0 {
        let before = names.drop_last();
        lemma_pending(before, done);
        let p = pending(names, done);
        assert forall|i: int| 0 <= i < p.len() implies !done.contains(#[trigger] p[i])
            && names.contains(p[i]) by {
            if i < pending(before, done).len() {
                let x = pending(before, done)[i];
                assert(before.contains(x));
                let j = choose|j: int| 0 <= j < before.len() && before[j] == x;
                assert(names[j] == x);
            } else {
                assert(names[names.len() - 1] == p[i]);
            }
        }
        assert forall|i: int| 0 <= i < names.len() && !done.contains(
            #[trigger] names[i],
        ) implies p.contains(names[i]) by {
            if i < before.len() {
                assert(before[i] == names[i]);
                let q = pending(before, done);
                assert(q.contains(names[i]));
                let j = choose|j: int| 0 <= j < q.len() && q[j] == names[i];
                assert(p[j] == names[i]);
            } else {
                assert(p[p.len() - 1] == names[i]);
            }
        }
    }
}

/// Moving the last element of one list to the end of another keeps the
/// elements of the two lists together what they were.
proof fn lemma_move_last(
    o: Seq<InvertedEntryView>,
    r: Seq<InvertedEntryView>,
    e: InvertedEntryView,
)
    ensures
        o.push(e).to_multiset().add(r.to_multiset()) == o.to_multiset().add(
            r.push(e).to_multiset(),
        ),
{
    broadcast use vstd::multiset::group_multiset_axioms;
    vstd::seq_lib::to_multiset_build(o, e);
    vstd::seq_lib::to_multiset_build(r, e);
    assert(o.push(e).to_multiset().add(r.to_multiset()) =~= o.to_multiset().add(
        r.push(e).to_multiset(),
    ));
}

/// The same with a third list that stands by.
proof fn lemma_move_last_beside(
    o: Seq<InvertedEntryView>,
    a: Seq<InvertedEntryView>,
    r: Seq<InvertedEntryView>,
    e: InvertedEntryView,
)
    ensures
        o.push(e).to_multiset().add(a.to_multiset()).add(r.to_multiset()) == o.to_multiset().add(
            a.to_multiset(),
        ).add(r.push(e).to_multiset()),
{
    broadcast use vstd::multiset::group_multiset_axioms;
    vstd::seq_lib::to_multiset_build(o, e);
    vstd::seq_lib::to_multiset_build(r, e);
    assert(o.push(e).to_multiset().add(a.to_multiset()).add(r.to_multiset())
        =~= o.to_multiset().add(a.to_multiset()).add(r.push(e).to_multiset()));
}

// ---------------------------------------------------------------------------
// The code
// ---------------------------------------------------------------------------

/// Whether `a` comes before `b` in the final order.
pub fn entry_precedes(a: &InvertedEntry, b: &InvertedEntry) -> (r: bool)
    ensures
        r == precedes(a.deep_view(), b.deep_view()),
{
    if a.citation_count != b.citation_count {
        a.citation_count > b.citation_count
    } else {
        let x = chars_of(a.cited_id.as_str());
        let y = chars_of(b.cited_id.as_str());
        str_lt(&x, &y)
    }
}

/// `s` read from the back is in order.
spec fn in_order_reversed(s: Seq<InvertedEntryView>) -> bool {
    forall|i: int| 0 <= i < s.len() - 1 ==> !precedes(#[trigger] s[i], s[i + 1])
}

/// The entries of `v`, the last first.
fn reversed(v: Vec<InvertedEntry>) -> (r: Vec<InvertedEntry>)
    ensures
        r.deep_view() == v.deep_view().reverse(),
{
    let ghost all = v.deep_view();
    let mut v = v;
    let mut r: Vec<InvertedEntry> = Vec::new();
    assert(r.deep_view() =~= Seq::<InvertedEntryView>::empty());
    while v.len() > 0
        invariant
            v.deep_view().len() + r.deep_view().len() == all.len(),
            forall|j: int| 0 <= j < v.deep_view().len() ==> v.deep_view()[j] == all[j],
            forall|j: int|
                0 <= j < r.deep_view().len() ==> r.deep_view()[j] == all[all.len() - 1 - j],
        decreases v.len(),
    {
        let ghost vb = v.deep_view();
        let ghost rb = r.deep_view();
        let e = v.pop().unwrap();
        r.push(e);
        assert(v.deep_view() =~= vb.drop_last());
        assert(r.deep_view() =~= rb.push(vb.last()));
    }
    assert(r.deep_view() =~= all.reverse());
    r
}

/// Merges two lists that are in order into one that is.
fn merge(a: Vec<InvertedEntry>, b: Vec<InvertedEntry>) -> (out: Vec<InvertedEntry>)
    requires
        in_order(a.deep_view()),
        in_order(b.deep_view()),
    ensures
        in_order(out.deep_view()),
        out.deep_view().to_multiset() == a.deep_view().to_multiset().add(
            b.deep_view().to_multiset(),
        ),
{
    broadcast use {vstd::seq_lib::group_to_multiset_ensures, vstd::multiset::group_multiset_axioms};
    let ghost av = a.deep_view();
    let ghost bv = b.deep_view();
    let mut ra = reversed(a);
    let mut rb = reversed(b);
    proof {
        assert(in_order_reversed(ra.deep_view())) by {
            let s = ra.deep_view();
            assert forall|i: int| 0 <= i < s.len() - 1 implies !precedes(#[trigger] s[i], s[i + 1]) by {
                let k = av.len() - 2 - i;
                assert(!precedes(av[k + 1], av[k]));
            }
        }
        assert(in_order_reversed(rb.deep_view())) by {
            let s = rb.deep_view();
            assert forall|i: int| 0 <= i < s.len() - 1 implies !precedes(#[trigger] s[i], s[i + 1]) by {
                let k = bv.len() - 2 - i;
                assert(!precedes(bv[k + 1], bv[k]));
            }
        }
        av.lemma_reverse_to_multiset();
        bv.lemma_reverse_to_multiset();
    }
    let mut out: Vec<InvertedEntry> = Vec::new();
    assert(out.deep_view() =~= Seq::<InvertedEntryView>::empty());
    while ra.len() > 0 || rb.len() > 0
        invariant
            in_order_reversed(ra.deep_view()),
            in_order_reversed(rb.deep_view()),
            in_order(out.deep_view()),
            out.deep_view().len() > 0 && ra.deep_view().len() > 0 ==> !precedes(
                ra.deep_view().last(),
                out.deep_view().last(),
            ),
            out.deep_view().len() > 0 && rb.deep_view().len() > 0 ==> !precedes(
                rb.deep_view().last(),
                out.deep_view().last(),
            ),
            out.deep_view().to_multiset().add(ra.deep_view().to_multiset()).add(
                rb.deep_view().to_multiset(),
            ) == av.to_multiset().add(bv.to_multiset()),
        decreases ra.len() + rb.len(),
    {
        let ghost ob = out.deep_view();
        let ghost rab = ra.deep_view();
        let ghost rbb = rb.deep_view();
        let take_a = if rb.len() == 0 {
            true
        } else if ra.len() == 0 {
            false
        } else {
            !entry_precedes(&rb[rb.len() - 1], &ra[ra.len() - 1])
        };
        if take_a {
            let e = ra.pop().unwrap();
            let ghost ev = e.deep_view();
            out.push(e);
            proof {
                assert(ra.deep_view() =~= rab.drop_last());
                assert(rab =~= ra.deep_view().push(ev));
                assert(out.deep_view() =~= ob.push(ev));
                if ra.deep_view().len() > 0 {
                    assert(!precedes(rab[rab.len() - 2], rab[rab.len() - 2 + 1]));
                }
                lemma_move_last(ob, ra.deep_view(), ev);
                assert(in_order(out.deep_view())) by {
                    let s = out.deep_view();
                    assert forall|i: int| 0 <= i < s.len() - 1 implies !precedes(
                        #[trigger] s[i + 1],
                        s[i],
                    ) by {
                        if i + 1 < ob.len() {
                            assert(!precedes(ob[i + 1], ob[i]));
                        }
                    }
                }
            }
        } else {
            let e = rb.pop().unwrap();
            let ghost ev = e.deep_view();
            out.push(e);
            proof {
                assert(rb.deep_view() =~= rbb.drop_last());
                assert(rbb =~= rb.deep_view().push(ev));
                assert(out.deep_view() =~= ob.push(ev));
                if rb.deep_view().len() > 0 {
                    assert(!precedes(rbb[rbb.len() - 2], rbb[rbb.len() - 2 + 1]));
                }
                if ra.deep_view().len() > 0 {
                    lemma_precedes_asymmetric(ev, rab.last());
                }
                lemma_move_last_beside(ob, rab, rb.deep_view(), ev);
                assert(in_order(out.deep_view())) by {
                    let s = out.deep_view();
                    assert forall|i: int| 0 <= i < s.len() - 1 implies !precedes(
                        #[trigger] s[i + 1],
                        s[i],
                    ) by {
                        if i + 1 < ob.len() {
                            assert(!precedes(ob[i + 1], ob[i]));
                        }
                    }
                }
            }
        }
    }
    assert(ra.deep_view() =~= Seq::<InvertedEntryView>::empty());
    assert(rb.deep_view() =~= Seq::<InvertedEntryView>::empty());
    assert(out.deep_view().to_multiset() =~= av.to_multiset().add(bv.to_multiset()));
    out
}

/// Sorts entries by citation count, the largest first; entries of equal
/// count stand in the order of their identifiers.
pub fn sort_entries(entries: Vec<InvertedEntry>) -> (out: Vec<InvertedEntry>)
    ensures
        in_order(out.deep_view()),
        in_order_throughout(out.deep_view()),
        counts_descend(out.deep_view()),
        out.deep_view().to_multiset() == entries.deep_view().to_multiset(),
    decreases entries.len(),
{
    broadcast use {vstd::seq_lib::group_to_multiset_ensures, vstd::multiset::group_multiset_axioms};
    if entries.len() <= 1 {
        proof {
            lemma_in_order_counts(entries.deep_view());
            lemma_in_order_throughout(entries.deep_view());
        }
        return entries;
    }
    let ghost all = entries.deep_view();
    let mut left = entries;
    let mut right: Vec<InvertedEntry> = Vec::new();
    let half = left.len() / 2;
    assert(right.deep_view() =~= Seq::<InvertedEntryView>::empty());
    while right.len() < half
        invariant
            half < all.len(),
            half >= 1,
            left.len() + right.len() == all.len(),
            right.len() <= half,
            left.deep_view().to_multiset().add(right.deep_view().to_multiset())
                == all.to_multiset(),
        decreases half - right.len(),
    {
        let ghost lb = left.deep_view();
        let ghost rb = right.deep_view();
        let e = left.pop().unwrap();
        let ghost ev = e.deep_view();
        right.push(e);
        proof {
            assert(left.deep_view() =~= lb.drop_last());
            assert(lb =~= left.deep_view().push(ev));
            assert(right.deep_view() =~= rb.push(ev));
            lemma_move_last(rb, left.deep_view(), ev);
            assert(left.deep_view().to_multiset().add(right.deep_view().to_multiset())
                =~= right.deep_view().to_multiset().add(left.deep_view().to_multiset()));
            assert(rb.to_multiset().add(lb.to_multiset()) =~= lb.to_multiset().add(
                rb.to_multiset(),
            ));
        }
    }
    let a = sort_entries(left);
    let b = sort_entries(right);
    let out = merge(a, b);
    proof {
        lemma_in_order_counts(out.deep_view());
        lemma_in_order_throughout(out.deep_view());
    }
    out
}

/// Assembles the inverted partitions: all their entries in one list, sorted
/// by citation count, the largest first, entries of equal count in the
/// order of their identifiers.
pub fn assemble(parts: Vec<Vec<InvertedEntry>>) -> (out: Vec<InvertedEntry>)
    ensures
        is_assembly_of(out.deep_view(), parts.deep_view()),
{
    broadcast use {vstd::seq_lib::group_to_multiset_ensures, vstd::multiset::group_multiset_axioms};
    let ghost all = parts.deep_view();
    let mut parts = parts;
    let mut pool: Vec<InvertedEntry> = Vec::new();
    assert(pool.deep_view() =~= Seq::<InvertedEntryView>::empty());
    while parts.len() > 0
        invariant
            pool.deep_view().to_multiset().add(flattened(parts.deep_view()).to_multiset())
                == flattened(all).to_multiset(),
        decreases parts.len(),
    {
        let ghost pb = parts.deep_view();
        let ghost before = pool.deep_view();
        let mut part = parts.pop().unwrap();
        let ghost pv = part.deep_view();
        proof {
            assert(parts.deep_view() =~= pb.drop_last());
            assert(pb.last() == pv);
            vstd::seq_lib::lemma_multiset_commutative(flattened(pb.drop_last()), pv);
        }
        while part.len() > 0
            invariant
                pool.deep_view().to_multiset().add(part.deep_view().to_multiset())
                    == before.to_multiset().add(pv.to_multiset()),
            decreases part.len(),
        {
            let ghost qb = part.deep_view();
            let ghost ob = pool.deep_view();
            let e = part.pop().unwrap();
            let ghost ev = e.deep_view();
            pool.push(e);
            proof {
                assert(part.deep_view() =~= qb.drop_last());
                assert(qb =~= part.deep_view().push(ev));
                assert(pool.deep_view() =~= ob.push(ev));
                lemma_move_last(ob, part.deep_view(), ev);
            }
        }
        proof {
            assert(part.deep_view() =~= Seq::<InvertedEntryView>::empty());
            part.deep_view().to_multiset_ensures();
            vstd::multiset::lemma_multiset_empty_len(part.deep_view().to_multiset());
            assert(part.deep_view().to_multiset() =~= vstd::multiset::Multiset::empty());
            assert(pool.deep_view().to_multiset() =~= before.to_multiset().add(pv.to_multiset()));
            assert(flattened(pb) == flattened(pb.drop_last()) + pv);
            assert(pool.deep_view().to_multiset().add(
                flattened(parts.deep_view()).to_multiset(),
            ) =~= before.to_multiset().add(flattened(pb).to_multiset()));
        }
    }
    assert(flattened(parts.deep_view()) =~= Seq::<InvertedEntryView>::empty());
    assert(pool.deep_view().to_multiset() =~= flattened(all).to_multiset());
    sort_entries(pool)
}

/// The partitions that are still to be inverted: those of `names` that the
/// checkpoint does not record as inverted, in order.
pub fn pending_partitions(names: &Vec<String>, checkpoint: &Checkpoint) -> (todo: Vec<String>)
    ensures
        todo.deep_view() == pending(names.deep_view(), checkpoint.partitions_inverted@),
{
    let mut todo: Vec<String> = Vec::new();
    let ghost all = names.deep_view();
    let ghost done = checkpoint.partitions_inverted@;
    let mut i: usize = 0;
    assert(all.take(0) =~= Seq::<Seq<char>>::empty());
    assert(todo.deep_view() =~= Seq::<Seq<char>>::empty());
    while i < names.len()
        invariant
            i <= names.len(),
            all == names.deep_view(),
            done == checkpoint.partitions_inverted@,
            todo.deep_view() == pending(all.take(i as int), done),
        decreases names.len() - i,
    {
        let ghost before = todo.deep_view();
        assert(all.take(i + 1).drop_last() =~= all.take(i as int));
        assert(all.take(i + 1).last() == names@[i as int]@);
        if !checkpoint.is_partition_inverted(names[i].as_str()) {
            todo.push(names[i].clone());
            assert(todo.deep_view() =~= before.push(names@[i as int]@));
        }
        i += 1;
    }
    assert(all.take(names.len() as int) =~= all);
    todo
}

} // verus!
