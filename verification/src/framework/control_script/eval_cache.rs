//! Cache of evaluated node values with the frame they were computed in.
use vstd::prelude::*;

use crate::framework::named_map::NamedMap;

verus! {

/// Remembers, per node name, the last value computed and its frame.
pub struct EvalCache<V> {
    cache: NamedMap<(u32, V)>,
}

impl<V: Copy> EvalCache<V> {
    /// Node name to (frame, value) of its last evaluation.
    pub closed spec fn view(self) -> Map<Seq<char>, (u32, V)> {
        self.cache@
    }

    pub fn new() -> (r: Self)
        ensures
            r@ == Map::<Seq<char>, (u32, V)>::empty(),
    {
        Self { cache: NamedMap::new() }
    }

    /// Whether `name` was evaluated during `frame`.
    pub fn has(&self, name: &str, frame: u32) -> (r: bool)
        ensures
            r == (self@.contains_key(name@) && self@[name@].0 == frame),
    {
        match self.cache.get(name) {
            Some(entry) => entry.0 == frame,
            None => false,
        }
    }

    /// Records that `name` evaluated to `value` during `frame`.
    pub fn store(&mut self, name: &str, frame: u32, value: V)
        ensures
            final(self)@ == old(self)@.insert(name@, (frame, value)),
    {
        self.cache.insert(name, (frame, value));
    }

    /// The frame and value of the last evaluation of `name`.
    pub fn get(&self, name: &str) -> (r: Option<(u32, V)>)
        ensures
            r matches Some(e) ==> self@.contains_key(name@) && self@[name@] == e,
            r is None ==> !self@.contains_key(name@),
    {
        match self.cache.get(name) {
            Some(entry) => Some(*entry),
            None => None,
        }
    }

    /// Forgets every cached value.
    pub fn clear(&mut self)
        ensures
            final(self)@ == Map::<Seq<char>, (u32, V)>::empty(),
    {
        self.cache.clear();
    }
}

} // verus!
