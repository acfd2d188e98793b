//! Per-frame cache of evaluated node values.
use vstd::prelude::*;

use crate::framework::named_map::NamedMap;

verus! {

/// The value cached for `name` during `frame`, if any.
pub open spec fn cached<V>(m: Map<Seq<char>, (u32, V)>, name: Seq<char>, frame: u32) -> Option<V> {
    if m.contains_key(name) && m[name].0 == frame {
        Some(m[name].1)
    } else {
        None
    }
}

/// Remembers, per node name, the last value computed and the frame it was
/// computed in, so a node is evaluated at most once per frame.
pub struct EvalCache<V> {
    cache: NamedMap<(u32, V)>,
}

impl<V: Copy> EvalCache<V> {
    /// Node name to (frame, value) of its last evaluation.
    pub closed spec fn view(self) -> Map<Seq<char>, (u32, V)> {
        self.cache@
    }

    pub fn new() -> (r: Self)
        ensures
            r@ == Map::<Seq<char>, (u32, V)>::empty(),
    {
        Self { cache: NamedMap::new() }
    }

    /// Whether `name` was evaluated during `frame`.
    pub fn has(&self, name: &str, frame: u32) -> (r: bool)
        ensures
            r == cached(self@, name@, frame) is Some,
    {
        match self.cache.get(name) {
            Some(entry) => entry.0 == frame,
            None => false,
        }
    }

    /// Records that `name` evaluated to `value` during `frame`.
    pub fn store(&mut self, name: &str, frame: u32, value: V)
        ensures
            final(self)@ == old(self)@.insert(name@, (frame, value)),
    {
        self.cache.insert(name, (frame, value));
    }

    /// The value of `name` if it was evaluated during `frame`.
    pub fn get(&self, name: &str, frame: u32) -> (r: Option<V>)
        ensures
            r == cached(self@, name@, frame),
    {
        match self.cache.get(name) {
            Some(entry) => {
                if entry.0 == frame {
                    Some(entry.1)
                } else {
                    None
                }
            },
            None => None,
        }
    }

    /// Forgets every cached value.
    pub fn clear(&mut self)
        ensures
            final(self)@ == Map::<Seq<char>, (u32, V)>::empty(),
    {
        self.cache.clear();
    }
}

/// A value stored for a name in a frame is what that name reads back in the
/// same frame; in any other frame nothing is read back for it, and other
/// names read back what they did before.
pub proof fn law_store_then_get<V>(m: Map<Seq<char>, (u32, V)>, name: Seq<char>, frame: u32, value: V)
    ensures
        cached(m.insert(name, (frame, value)), name, frame) == Some(value),
        forall|f: u32| f != frame ==> cached(m.insert(name, (frame, value)), name, f) is None,
        forall|other: Seq<char>, f: u32|
            other != name ==> cached(m.insert(name, (frame, value)), other, f) == cached(m, other, f),
{
}

} // verus!
