//! Association lists keyed by name, with the semantics of a map.
use vstd::prelude::*;

use super::text::str_eq;

verus! {

/// The map described by the entries: later entries take precedence.
pub open spec fn map_of<V>(s: Seq<(String, V)>) -> Map<Seq<char>, V>
    decreases s.len(),
{
    if s.len() == 0 {
        Map::empty()
    } else {
        map_of(s.drop_last()).insert(s.last().0@, s.last().1)
    }
}

pub open spec fn keys_of<V>(s: Seq<(String, V)>) -> Seq<Seq<char>> {
    s.map_values(|e: (String, V)| e.0@)
}

proof fn lemma_map_of_dom<V>(s: Seq<(String, V)>, k: Seq<char>)
    ensures
        map_of(s).contains_key(k) <==> keys_of(s).contains(k),
    decreases s.len(),
{
    if s.len() > 0 {
        lemma_map_of_dom(s.drop_last(), k);
        let d = s.drop_last();
        assert(keys_of(d) =~= keys_of(s).drop_last());
        if keys_of(s).contains(k) {
            let j = choose|j: int| 0 <= j < keys_of(s).len() && keys_of(s)[j] == k;
            if j < d.len() {
                assert(keys_of(d)[j] == k);
            }
        }
        if keys_of(d).contains(k) {
            let j = choose|j: int| 0 <= j < keys_of(d).len() && keys_of(d)[j] == k;
            assert(keys_of(s)[j] == k);
        }
        assert(keys_of(s)[s.len() - 1] == s.last().0@);
    }
}

proof fn lemma_map_of_index<V>(s: Seq<(String, V)>, i: int)
    requires
        keys_of(s).no_duplicates(),
        0 <= i < s.len(),
    ensures
        map_of(s).contains_key(s[i].0@),
        map_of(s)[s[i].0@] == s[i].1,
    decreases s.len(),
{
    let d = s.drop_last();
    assert(keys_of(d) =~= keys_of(s).drop_last());
    if i < s.len() - 1 {
        assert(keys_of(s)[i] != keys_of(s)[s.len() - 1]);
        assert(d[i] == s[i]);
        lemma_map_of_index(d, i);
    }
}

proof fn lemma_map_of_update<V>(s: Seq<(String, V)>, i: int, e: (String, V))
    requires
        keys_of(s).no_duplicates(),
        0 <= i < s.len(),
        s[i].0@ == e.0@,
    ensures
        map_of(s.update(i, e)) == map_of(s).insert(e.0@, e.1),
    decreases s.len(),
{
    let d = s.drop_last();
    assert(keys_of(d) =~= keys_of(s).drop_last());
    if i == s.len() - 1 {
        assert(s.update(i, e).drop_last() =~= d);
        assert(map_of(s.update(i, e)) =~= map_of(s).insert(e.0@, e.1));
    } else {
        assert(s.update(i, e).drop_last() =~= d.update(i, e));
        lemma_map_of_update(d, i, e);
        assert(keys_of(s)[i] != keys_of(s)[s.len() - 1]);
        assert(map_of(s.update(i, e)) =~= map_of(s).insert(e.0@, e.1));
    }
}

proof fn lemma_map_of_remove<V>(s: Seq<(String, V)>, i: int)
    requires
        keys_of(s).no_duplicates(),
        0 <= i < s.len(),
    ensures
        map_of(s.remove(i)) == map_of(s).remove(s[i].0@),
    decreases s.len(),
{
    let d = s.drop_last();
    assert(keys_of(d) =~= keys_of(s).drop_last());
    if i == s.len() - 1 {
        assert(s.remove(i) =~= d);
        lemma_map_of_dom(d, s[i].0@);
        assert(!keys_of(d).contains(s[i].0@)) by {
            if keys_of(d).contains(s[i].0@) {
                let j = choose|j: int| 0 <= j < keys_of(d).len() && keys_of(d)[j] == s[i].0@;
                assert(keys_of(s)[j] == keys_of(s)[i]);
            }
        }
        assert(map_of(s.remove(i)) =~= map_of(s).remove(s[i].0@));
    } else {
        assert(s.remove(i).drop_last() =~= d.remove(i));
        assert(s.remove(i).last() == s.last());
        lemma_map_of_remove(d, i);
        assert(keys_of(s)[i] != keys_of(s)[s.len() - 1]);
        assert(d[i] == s[i]);
        assert(map_of(s.remove(i)) =~= map_of(s).remove(s[i].0@));
    }
}

/// A map from names to values, kept as a list of distinct names.
pub struct NamedMap<V> {
    entries: Vec<(String, V)>,
}

impl<V> NamedMap<V> {
    #[verifier::type_invariant]
    spec fn inv(self) -> bool {
        keys_of(self.entries@).no_duplicates()
    }

    pub closed spec fn view(self) -> Map<Seq<char>, V> {
        map_of(self.entries@)
    }

    /// The names of the entries, in insertion order.
    pub closed spec fn names(self) -> Seq<Seq<char>> {
        keys_of(self.entries@)
    }

    pub fn new() -> (r: Self)
        ensures
            r.view() == Map::<Seq<char>, V>::empty(),
            r.names() == Seq::<Seq<char>>::empty(),
    {
        let r = Self { entries: Vec::new() };
        proof {
            assert(keys_of(r.entries@) =~= Seq::<Seq<char>>::empty());
        }
        r
    }

    fn find(&self, name: &str) -> (r: Option<usize>)
        ensures
            r matches Some(i) ==> i < self.entries.len() && self.entries@[i as int].0@ == name@,
            r is None ==> !keys_of(self.entries@).contains(name@),
    {
        let mut i: usize = 0;
        while i < self.entries.len()
            invariant
                0 <= i <= self.entries.len(),
                forall|k: int| 0 <= k < i ==> self.entries@[k].0@ != name@,
            decreases self.entries.len() - i,
        {
            if str_eq(self.entries[i].0.as_str(), name) {
                return Some(i);
            }
            i = i + 1;
        }
        proof {
            if keys_of(self.entries@).contains(name@) {
                let k = choose|k: int| 0 <= k < keys_of(self.entries@).len() && keys_of(self.entries@)[k] == name@;
                assert(self.entries@[k].0@ == name@);
            }
        }
        None
    }

    /// The value stored under `name`.
    pub fn get(&self, name: &str) -> (r: Option<&V>)
        ensures
            r matches Some(v) ==> self@.contains_key(name@) && self@[name@] == *v,
            r is None ==> !self@.contains_key(name@),
    {
        proof {
            use_type_invariant(self);
        }
        match self.find(name) {
            Some(i) => {
                proof {
                    lemma_map_of_index(self.entries@, i as int);
                }
                Some(&self.entries[i].1)
            },
            None => {
                proof {
                    lemma_map_of_dom(self.entries@, name@);
                }
                None
            },
        }
    }

    pub fn contains_key(&self, name: &str) -> (r: bool)
        ensures
            r == self@.contains_key(name@),
    {
        proof {
            lemma_map_of_dom(self.entries@, name@);
        }
        match self.find(name) {
            Some(i) => {
                proof {
                    assert(keys_of(self.entries@)[i as int] == name@);
                }
                true
            },
            None => false,
        }
    }

    /// Stores `value` under `name`, replacing any previous value.
    pub fn insert(&mut self, name: &str, value: V)
        ensures
            final(self)@ == old(self)@.insert(name@, value),
            old(self)@.contains_key(name@) ==> final(self).names() == old(self).names(),
            !old(self)@.contains_key(name@) ==> final(self).names() == old(self).names().push(name@),
    {
        proof {
            use_type_invariant(&*self);
            lemma_map_of_dom(self.entries@, name@);
        }
        let found = self.find(name);
        let mut entries: Vec<(String, V)> = Vec::new();
        std::mem::swap(&mut entries, &mut self.entries);
        let ghost s0 = entries@;
        match found {
            Some(i) => {
                let key = name.to_owned();
                let ghost e = (key, value);
                entries.set(i, (key, value));
                proof {
                    lemma_map_of_update(s0, i as int, e);
                    assert(keys_of(entries@) =~= keys_of(s0).update(i as int, name@));
                    assert(keys_of(s0)[i as int] == name@);
                    assert(keys_of(entries@) =~= keys_of(s0));
                }
            },
            None => {
                entries.push((name.to_owned(), value));
                proof {
                    assert(entries@.drop_last() =~= s0);
                    assert(keys_of(entries@) =~= keys_of(s0).push(name@));
                    assert(keys_of(entries@).no_duplicates()) by {
                        assert forall|a: int, b: int|
                            0 <= a < keys_of(entries@).len() && 0 <= b < keys_of(entries@).len() && a != b implies
                            keys_of(entries@)[a] != keys_of(entries@)[b] by {
                            if a == s0.len() {
                                assert(keys_of(s0).contains(keys_of(entries@)[b]));
                            } else if b == s0.len() {
                                assert(keys_of(s0).contains(keys_of(entries@)[a]));
                            }
                        }
                    }
                }
            },
        }
        self.entries = entries;
    }

    /// Removes the entry of `name`, if any, and returns its value.
    pub fn remove(&mut self, name: &str) -> (r: Option<V>)
        ensures
            final(self)@ == old(self)@.remove(name@),
            r matches Some(v) ==> old(self)@.contains_key(name@) && old(self)@[name@] == v,
            r is None ==> !old(self)@.contains_key(name@),
    {
        proof {
            use_type_invariant(&*self);
            lemma_map_of_dom(self.entries@, name@);
        }
        let found = self.find(name);
        match found {
            Some(i) => {
                let mut entries: Vec<(String, V)> = Vec::new();
                std::mem::swap(&mut entries, &mut self.entries);
                let ghost s0 = entries@;
                let removed = entries.remove(i);
                proof {
                    lemma_map_of_index(s0, i as int);
                    lemma_map_of_remove(s0, i as int);
                    assert(keys_of(entries@) =~= keys_of(s0).remove(i as int));
                    assert(keys_of(entries@).no_duplicates()) by {
                        assert forall|a: int, b: int|
                            0 <= a < keys_of(entries@).len() && 0 <= b < keys_of(entries@).len() && a != b implies
                            keys_of(entries@)[a] != keys_of(entries@)[b] by {
                            let qa = if a < i { a } else { a + 1 };
                            let qb = if b < i { b } else { b + 1 };
                            assert(keys_of(entries@)[a] == keys_of(s0)[qa]);
                            assert(keys_of(entries@)[b] == keys_of(s0)[qb]);
                        }
                    }
                }
                self.entries = entries;
                Some(removed.1)
            },
            None => {
                proof {
                    assert(self@ =~= self@.remove(name@));
                }
                None
            },
        }
    }

    /// Removes every entry.
    pub fn clear(&mut self)
        ensures
            final(self)@ == Map::<Seq<char>, V>::empty(),
            final(self).names() == Seq::<Seq<char>>::empty(),
    {
        self.entries = Vec::new();
        proof {
            assert(keys_of(self.entries@) =~= Seq::<Seq<char>>::empty());
        }
    }

    /// The number of entries; the names are distinct and are exactly the
    /// keys of the map.
    pub fn len(&self) -> (r: usize)
        ensures
            r == self.names().len(),
            self.names().no_duplicates(),
            forall|k: Seq<char>| self@.contains_key(k) <==> self.names().contains(k),
    {
        proof {
            use_type_invariant(self);
            assert forall|k: Seq<char>| self@.contains_key(k) <==> self.names().contains(k) by {
                lemma_map_of_dom(self.entries@, k);
            }
        }
        self.entries.len()
    }

    /// Whether the map has no entry.
    pub fn is_empty(&self) -> (r: bool)
        ensures
            r == (self@ == Map::<Seq<char>, V>::empty()),
    {
        proof {
            if self.entries.len() > 0 {
                lemma_map_of_dom(self.entries@, self.entries@[0].0@);
                assert(keys_of(self.entries@)[0] == self.entries@[0].0@);
                assert(self@.contains_key(self.entries@[0].0@));
            } else {
                assert(self@ =~= Map::<Seq<char>, V>::empty());
            }
        }
        self.entries.len() == 0
    }

    /// The name and value of the entry at `index` in insertion order.
    pub fn entry_at(&self, index: usize) -> (r: (&String, &V))
        requires
            index < self.names().len(),
        ensures
            r.0@ == self.names()[index as int],
            self@.contains_key(r.0@),
            self@[r.0@] == *r.1,
    {
        proof {
            use_type_invariant(self);
            lemma_map_of_index(self.entries@, index as int);
        }
        (&self.entries[index].0, &self.entries[index].1)
    }
}

} // verus!
