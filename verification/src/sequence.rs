//! Helpers on vectors.

use vstd::prelude::*;

verus! {

/// The items in reverse order.
pub fn reversed<T>(items: Vec<T>) -> (r: Vec<T>)
    ensures
        r@ == items@.reverse(),
{
    let mut source = items;
    let mut r: Vec<T> = Vec::new();
    let ghost all = source@;
    while source.len() > 0
        invariant
            source@.len() + r@.len() == all.len(),
            source@ == all.subrange(0, source@.len() as int),
            forall|k: int| 0 <= k < r@.len() ==> r@[k] == all[all.len() - 1 - k],
        decreases source.len(),
    {
        match source.pop() {
            Some(item) => {
                r.push(item);
            },
            None => {},
        }
    }
    proof {
        assert(r@ =~= all.reverse());
    }
    r
}

} // verus!
