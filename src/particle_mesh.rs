use vstd::prelude::*;

verus! {

/// Returns an empty string.
pub fn test() -> (r: String)
    ensures
        r@ == Seq::<char>::empty(),
{
    String::new()
}

} // verus!
