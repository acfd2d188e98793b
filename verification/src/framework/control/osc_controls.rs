//! Addresses of OSC controls: a control is registered under its address
//! without the leading `/`, and incoming messages are matched by their
//! address with every leading `/` removed.
use vstd::prelude::*;

use crate::framework::osc::is_full_address;
use crate::framework::text::{chars_of, slice_of, string_from_chars};

verus! {

/// Checks that `address` may name a control: a control's address is given
/// without its leading `/`. An address that starts with `/` is refused; it
/// is left out here, and a caller that meets one fails.
pub fn check_address(address: &str)
    requires
        !is_full_address(address@),
{
}

/// The number of `/` that `s` starts with.
pub open spec fn leading_slashes(s: Seq<char>) -> nat
    decreases s.len(),
{
    if s.len() > 0 && s[0] == '/' {
        1 + leading_slashes(s.drop_first())
    } else {
        0
    }
}

proof fn lemma_leading_slashes(s: Seq<char>, i: int)
    requires
        0 <= i <= s.len(),
        forall|k: int| 0 <= k < i ==> s[k] == '/',
        i == s.len() || s[i] != '/',
    ensures
        leading_slashes(s) == i,
    decreases i,
{
    if i > 0 {
        lemma_leading_slashes(s.drop_first(), i - 1);
    }
}

/// The control key of a message address: the address without any of its
/// leading `/`.
pub fn address_key(address: &str) -> (r: String)
    ensures
        r@ == address@.skip(leading_slashes(address@) as int),
{
    let cs = chars_of(address);
    let mut i: usize = 0;
    while i < cs.len() && cs[i] == '/'
        invariant
            0 <= i <= cs.len(),
            cs@ == address@,
            forall|k: int| 0 <= k < i ==> cs@[k] == '/',
        decreases cs.len() - i,
    {
        i = i + 1;
    }
    proof {
        lemma_leading_slashes(address@, i as int);
    }
    let rest = slice_of(&cs, i, cs.len());
    proof {
        assert(rest@ =~= address@.skip(i as int));
    }
    string_from_chars(rest.as_slice())
}

} // verus!
