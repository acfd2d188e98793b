//! Which dependencies of a node must be evaluated before it in a frame.
use vstd::prelude::*;

use super::eval_cache::EvalCache;
use crate::framework::dep_order::str_views;
use crate::framework::text::str_eq;
use crate::framework::named_map::NamedMap;

verus! {

/// Position of the first occurrence of `t` in `s`, or `s.len()` when absent.
pub open spec fn first_index(s: Seq<Seq<char>>, t: Seq<char>) -> nat
    decreases s.len(),
{
    if s.len() == 0 {
        0
    } else if s[0] == t {
        0
    } else {
        1 + first_index(s.drop_first(), t)
    }
}

/// Whether `name` has not been evaluated during `frame`.
pub open spec fn pending<V>(m: Map<Seq<char>, (u32, V)>, name: Seq<char>, frame: u32) -> bool {
    !(m.contains_key(name) && m[name].0 == frame)
}

/// The names among `order[0..k]` not evaluated during `frame`, in order.
pub open spec fn pending_prefix<V>(order: Seq<Seq<char>>, k: int, m: Map<Seq<char>, (u32, V)>, frame: u32) -> Seq<
    Seq<char>,
>
    decreases k,
{
    if k <= 0 {
        Seq::empty()
    } else {
        let rest = pending_prefix(order, k - 1, m, frame);
        if pending(m, order[k - 1], frame) {
            rest.push(order[k - 1])
        } else {
            rest
        }
    }
}

proof fn lemma_first_index(s: Seq<Seq<char>>, t: Seq<char>, i: int)
    requires
        0 <= i <= s.len(),
        forall|k: int| 0 <= k < i ==> s[k] != t,
        i == s.len() || s[i] == t,
    ensures
        first_index(s, t) == i,
    decreases s.len(),
{
    if s.len() > 0 && i > 0 {
        lemma_first_index(s.drop_first(), t, i - 1);
    }
}

/// The nodes of the evaluation `order` that precede `target` (the whole
/// order when `target` is not in it) and have not yet been evaluated during
/// `frame`, in order: what must run before `target` can be evaluated.
pub fn dependencies_to_run<V: Copy>(order: &Vec<String>, target: &str, cache: &EvalCache<V>, frame: u32) -> (r: Vec<
    String,
>)
    ensures
        str_views(r@) == pending_prefix(
            str_views(order@),
            first_index(str_views(order@), target@) as int,
            cache@,
            frame,
        ),
{
    let ghost ov = str_views(order@);
    let mut r: Vec<String> = Vec::new();
    let mut i: usize = 0;
    while i < order.len()
        invariant
            0 <= i <= order.len(),
            ov == str_views(order@),
            forall|k: int| 0 <= k < i ==> ov[k] != target@,
            str_views(r@) == pending_prefix(ov, i as int, cache@, frame),
        decreases order.len() - i,
    {
        if str_eq(order[i].as_str(), target) {
            proof {
                assert(ov[i as int] == target@);
                lemma_first_index(ov, target@, i as int);
            }
            return r;
        }
        if !cache.has(order[i].as_str(), frame) {
            let ghost r0 = r@;
            r.push(order[i].clone());
            proof {
                assert(str_views(r@) =~= str_views(r0).push(ov[i as int]));
            }
        }
        i = i + 1;
    }
    proof {
        lemma_first_index(ov, target@, i as int);
    }
    r
}

/// The name `name` stands for: its alias target if it has one, else itself.
pub fn resolve_name(aliases: &NamedMap<String>, name: &str) -> (r: String)
    ensures
        aliases@.contains_key(name@) ==> r@ == aliases@[name@]@,
        !aliases@.contains_key(name@) ==> r@ == name@,
{
    match aliases.get(name) {
        Some(target) => target.clone(),
        None => name.to_owned(),
    }
}

} // verus!
