//! Taking items from the front of a vector.

use vstd::prelude::*;

verus! {

/// Takes the first item out of a vector, if it has one. The items behind it
/// move up and keep their order.
pub fn first<T>(vec: &mut Vec<T>) -> (item: Option<T>)
    ensures
        old(vec)@.len() == 0 ==> item is None && final(vec)@ == old(vec)@,
        old(vec)@.len() > 0 ==> item == Some(old(vec)@[0]) && final(vec)@ == old(vec)@.skip(1),
{
    if vec.len() == 0 {
        return None;
    }
    let item = vec.remove(0);
    assert(vec@ =~= old(vec)@.skip(1));
    Some(item)
}

} // verus!
