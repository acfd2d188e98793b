//! Support for parameter modulation of effects.
use vstd::prelude::*;

verus! {

/// The warning for a parameter that `thing` has no field for.
pub fn warn_for(thing: &str, field: &str) -> (r: String)
    ensures
        r@ == thing@ + " does not support field: "@ + field@,
{
    let head = thing.to_owned();
    let with_text = head.concat(" does not support field: ");
    with_text.concat(field)
}

} // verus!
