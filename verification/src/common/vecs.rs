//! Moving the elements of a vector.

use vstd::prelude::*;

verus! {

/// The elements of `v`, the last first.
pub fn reversed<T: DeepView>(v: Vec<T>) -> (r: Vec<T>)
    ensures
        r.deep_view() == v.deep_view().reverse(),
        r@ == v@.reverse(),
{
    let ghost all = v.deep_view();
    let ghost plain = v@;
    let mut v = v;
    let mut r: Vec<T> = Vec::new();
    while v.len() > 0
        invariant
            v@.len() + r@.len() == plain.len(),
            forall|j: int| 0 <= j < v@.len() ==> v@[j] == plain[j],
            forall|j: int| 0 <= j < r@.len() ==> r@[j] == plain[plain.len() - 1 - j],
        decreases v.len(),
    {
        let e = v.pop().unwrap();
        r.push(e);
    }
    assert(r@ =~= plain.reverse());
    assert(r.deep_view() =~= all.reverse());
    r
}

} // verus!
