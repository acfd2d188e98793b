//! What a control holds after its script is reloaded.
use vstd::prelude::*;

verus! {

/// The value a control takes when its script is loaded again: the value it
/// held before, where it held one of the control's kind, else the default
/// of its configuration.
pub fn retained<V>(current: Option<V>, default: V) -> (r: V)
    ensures
        r == match current {
            Some(v) => v,
            None => default,
        },
{
    match current {
        Some(v) => v,
        None => default,
    }
}

} // verus!
