//! UI controls: the position of a select's value among its options.
use vstd::prelude::*;

use crate::framework::dep_order::str_views;
use crate::framework::text::str_eq;

verus! {

/// The position of the first option equal to `value`, or 0 when no option
/// is.
pub open spec fn select_index_spec(options: Seq<Seq<char>>, value: Seq<char>) -> int {
    if exists|i: int| 0 <= i < options.len() && options[i] == value {
        choose|i: int|
            0 <= i < options.len() && options[i] == value && forall|j: int| 0 <= j < i ==> options[j] != value
    } else {
        0
    }
}

/// The position of a select's `value` among its `options` (see
/// [`select_index_spec`]).
pub fn select_index(options: &Vec<String>, value: &str) -> (r: usize)
    ensures
        r == select_index_spec(str_views(options@), value@),
{
    let ghost ov = str_views(options@);
    let mut i: usize = 0;
    while i < options.len()
        invariant
            0 <= i <= options.len(),
            ov == str_views(options@),
            forall|j: int| 0 <= j < i ==> ov[j] != value@,
        decreases options.len() - i,
    {
        if str_eq(options[i].as_str(), value) {
            proof {
                assert(ov[i as int] == value@);
                let c = choose|k: int|
                    0 <= k < ov.len() && ov[k] == value@ && forall|j: int| 0 <= j < k ==> ov[j] != value@;
                assert(c == i) by {
                    if c < i {
                        assert(ov[c] != value@);
                    }
                    if c > i {
                        assert(ov[i as int] != value@);
                    }
                }
            }
            return i;
        }
        i = i + 1;
    }
    proof {
        assert(!(exists|k: int| 0 <= k < ov.len() && ov[k] == value@));
    }
    0
}

} // verus!
