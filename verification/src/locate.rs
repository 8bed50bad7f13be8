//! Picking the first candidate that is there: the worker program and the
//! model are looked for in several places, in a fixed order.

use vstd::prelude::*;

verus! {

/// Whether `i` is the first position of `present` that holds `true`.
pub open spec fn is_first_present(present: Seq<bool>, i: int) -> bool {
    &&& 0 <= i < present.len()
    &&& present[i]
    &&& forall|k: int| 0 <= k < i ==> !present[k]
}

/// The position of the first candidate that is there. `present` says of
/// each candidate, in the order of preference, whether it is there. Gives
/// `None` exactly if none is.
pub fn first_available(present: &[bool]) -> (found: Option<usize>)
    ensures
        match found {
            Some(i) => is_first_present(present@, i as int),
            None => forall|k: int| 0 <= k < present@.len() ==> !present@[k],
        },
{
    let mut i: usize = 0;
    while i < present.len()
        invariant
            i <= present@.len(),
            forall|k: int| 0 <= k < i ==> !present@[k],
        decreases present@.len() - i,
    {
        if present[i] {
            return Some(i);
        }
        i += 1;
    }
    None
}

} // verus!
