//! OSC addresses as the OSC receiver sees them.
use vstd::prelude::*;

use crate::framework::text::chars_of;

verus! {

/// Whether `address` starts with `/`, as every full OSC address does.
pub open spec fn is_full_address(address: Seq<char>) -> bool {
    address.len() > 0 && address[0] == '/'
}

/// Whether `address` is a full OSC address: one that starts with `/`.
pub fn validate_address(address: &str) -> (r: bool)
    ensures
        r == is_full_address(address@),
{
    let cs = chars_of(address);
    cs.len() > 0 && cs[0] == '/'
}

} // verus!
