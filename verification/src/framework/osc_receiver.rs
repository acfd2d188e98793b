//! Routing of incoming OSC messages to registered callbacks: the callbacks
//! of a message's address run first, then those registered for every
//! address (`*`), each group in registration order.
use vstd::prelude::*;

use crate::framework::named_map::NamedMap;

verus! {

/// The callbacks registered for `address`, in registration order.
pub open spec fn ids_at(m: Map<Seq<char>, Vec<usize>>, address: Seq<char>) -> Seq<usize> {
    if m.contains_key(address) {
        m[address]@
    } else {
        Seq::empty()
    }
}

/// Registered callbacks, by address, as numbers given out in order.
pub struct CallbackRegistry {
    callbacks: NamedMap<Vec<usize>>,
    next_id: usize,
}

impl CallbackRegistry {
    pub closed spec fn routes(self) -> Map<Seq<char>, Vec<usize>> {
        self.callbacks@
    }

    /// The number the next callback gets.
    pub closed spec fn next(self) -> usize {
        self.next_id
    }

    /// No callback.
    pub fn new() -> (r: Self)
        ensures
            r.routes() == Map::<Seq<char>, Vec<usize>>::empty(),
            r.next() == 0,
    {
        CallbackRegistry { callbacks: NamedMap::new(), next_id: 0 }
    }

    /// Registers a callback for `address` (`*` for every address) and
    /// returns its number.
    pub fn register_callback(&mut self, address: &str) -> (id: usize)
        requires
            old(self).next() < usize::MAX,
        ensures
            id == old(self).next(),
            final(self).next() == old(self).next() + 1,
            ids_at(final(self).routes(), address@) == ids_at(old(self).routes(), address@).push(id),
            forall|a: Seq<char>| a != address@ ==> ids_at(final(self).routes(), a) == ids_at(old(self).routes(), a),
    {
        let id = self.next_id;
        let mut list: Vec<usize> = Vec::new();
        match self.callbacks.get(address) {
            Some(existing) => {
                let mut i: usize = 0;
                while i < existing.len()
                    invariant
                        0 <= i <= existing.len(),
                        list@ == existing@.take(i as int),
                    decreases existing.len() - i,
                {
                    list.push(existing[i]);
                    assert(existing@.take(i + 1) =~= existing@.take(i as int).push(existing@[i as int]));
                    i = i + 1;
                }
                assert(existing@.take(i as int) =~= existing@);
            },
            None => {},
        }
        list.push(id);
        self.callbacks.insert(address, list);
        self.next_id = id + 1;
        id
    }

    /// The callbacks that a message for `address` runs, in order.
    pub fn handlers_for(&self, address: &str) -> (r: Vec<usize>)
        ensures
            r@ == ids_at(self.routes(), address@) + ids_at(self.routes(), "*"@),
    {
        let mut r: Vec<usize> = Vec::new();
        let ghost first = ids_at(self.routes(), address@);
        if let Some(list) = self.callbacks.get(address) {
            let mut i: usize = 0;
            while i < list.len()
                invariant
                    0 <= i <= list.len(),
                    r@ == list@.take(i as int),
                decreases list.len() - i,
            {
                r.push(list[i]);
                assert(list@.take(i + 1) =~= list@.take(i as int).push(list@[i as int]));
                i = i + 1;
            }
            assert(list@.take(i as int) =~= list@);
        }
        assert(r@ == first);
        if let Some(list) = self.callbacks.get("*") {
            let mut i: usize = 0;
            while i < list.len()
                invariant
                    0 <= i <= list.len(),
                    r@ == first + list@.take(i as int),
                decreases list.len() - i,
            {
                r.push(list[i]);
                assert(list@.take(i + 1) =~= list@.take(i as int).push(list@[i as int]));
                i = i + 1;
            }
            assert(list@.take(i as int) =~= list@);
        } else {
            assert(r@ =~= first + Seq::<usize>::empty());
        }
        r
    }
}

} // verus!
