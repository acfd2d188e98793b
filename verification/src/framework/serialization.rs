//! Saved control values, and the index of images saved by the application.
use vstd::prelude::*;

use crate::framework::named_map::NamedMap;

verus! {

/// The saved images, in the order they were saved.
#[derive(Clone, Debug)]
pub struct ImageIndex {
    pub items: Vec<ImageIndexItem>,
}

/// A saved image: its file name and when it was created.
#[derive(Clone, Debug)]
pub struct ImageIndexItem {
    pub filename: String,
    pub created_at: String,
}


/// The value saved first under `name`, if any.
pub open spec fn first_saved<V>(saved: Seq<(String, V)>, name: Seq<char>) -> Option<V>
    decreases saved.len(),
{
    if saved.len() == 0 {
        None
    } else if saved[0].0@ == name {
        Some(saved[0].1)
    } else {
        first_saved(saved.drop_first(), name)
    }
}

/// The saved values by name, the first saved for each name.
pub open spec fn saved_map<V>(saved: Seq<(String, V)>) -> Map<Seq<char>, V> {
    Map::new(|k: Seq<char>| first_saved(saved, k) is Some, |k: Seq<char>| first_saved(saved, k)->0)
}

/// The values after restoring `saved`: every control keeps its name, and
/// takes the value first saved under its name when there is one.
pub open spec fn merged<V>(values: Map<Seq<char>, V>, saved: Seq<(String, V)>) -> Map<Seq<char>, V> {
    Map::new(
        |k: Seq<char>| values.contains_key(k),
        |k: Seq<char>|
            match first_saved(saved, k) {
                Some(v) => v,
                None => values[k],
            },
    )
}

/// Restores saved values: each control takes the value first saved under
/// its name, if any; saved values of names that are no control are
/// ignored, and no control is added or removed.
pub fn merge_saved_values<V>(values: &mut NamedMap<V>, saved: Vec<(String, V)>)
    ensures
        final(values)@ == merged(old(values)@, saved@),
{
    let ghost all = saved@;
    let mut saved = saved;
    let mut firsts: NamedMap<V> = NamedMap::new();
    assert(all.skip(all.len() as int) =~= Seq::<(String, V)>::empty());
    assert(firsts@ =~= saved_map(all.skip(all.len() as int)));
    while saved.len() > 0
        invariant
            saved@ == all.take(saved@.len() as int),
            saved@.len() <= all.len(),
            firsts@ == saved_map(all.skip(saved@.len() as int)),
        decreases saved.len(),
    {
        let ghost n = saved@.len() as int;
        let (name, v) = saved.pop().unwrap();
        proof {
            assert(all.take(n)[n - 1] == all[n - 1]);
            assert(all.skip(n - 1).drop_first() =~= all.skip(n));
            assert(all.skip(n - 1)[0] == all[n - 1]);
            assert(saved@ =~= all.take(n - 1));
        }
        firsts.insert(name.as_str(), v);
        proof {
            assert(firsts@ =~= saved_map(all.skip(n - 1)));
        }
    }
    assert(all.skip(0) =~= all);
    let ghost v0 = values@;
    let n = values.len();
    let ghost names = values.names();
    let mut i: usize = 0;
    while i < n
        invariant
            0 <= i <= n,
            n == names.len(),
            names.no_duplicates(),
            forall|k: Seq<char>| v0.contains_key(k) <==> names.contains(k),
            values.names() == names,
            values@.dom() == v0.dom(),
            forall|k: Seq<char>|
                #![trigger values@[k]]
                v0.contains_key(k) ==> values@[k] == (if names.take(i as int).contains(k) && saved_map(all).contains_key(
                    k,
                ) {
                    saved_map(all)[k]
                } else {
                    v0[k]
                }),
            forall|k: Seq<char>|
                #![trigger firsts@.contains_key(k)]
                firsts@.contains_key(k) <==> (saved_map(all).contains_key(k) && !names.take(i as int).contains(k)),
            forall|k: Seq<char>| #![trigger firsts@[k]] firsts@.contains_key(k) ==> firsts@[k] == saved_map(all)[k],
        decreases n - i,
    {
        let name = values.entry_at(i).0.clone();
        proof {
            assert(names.take(i + 1) =~= names.take(i as int).push(name@));
            assert(!names.take(i as int).contains(name@)) by {
                if names.take(i as int).contains(name@) {
                    let j = choose|j: int| 0 <= j < i && names.take(i as int)[j] == name@;
                    assert(names[j] == names[i as int]);
                }
            }
        }
        let ghost before = values@;
        match firsts.remove(name.as_str()) {
            Some(v) => {
                values.insert(name.as_str(), v);
            },
            None => {},
        }
        proof {
            assert(name@ == names[i as int]);
            let t1 = names.take(i + 1);
            let t0 = names.take(i as int);
            assert forall|k: Seq<char>| t1.contains(k) <==> (t0.contains(k) || k == name@) by {
                if t1.contains(k) {
                    let j = choose|j: int| 0 <= j < t1.len() && t1[j] == k;
                    if j < i {
                        assert(t0[j] == k);
                    }
                }
                if t0.contains(k) {
                    let j = choose|j: int| 0 <= j < t0.len() && t0[j] == k;
                    assert(t1[j] == k);
                }
                if k == name@ {
                    assert(t1[i as int] == k);
                }
            }
            assert forall|k: Seq<char>| v0.contains_key(k) && k != name@ implies #[trigger] values@[k] == before[k] by {}
        }
        i = i + 1;
    }
    proof {
        assert(names.take(n as int) =~= names);
        assert(values@ =~= merged(v0, all));
    }
}


proof fn lemma_first_saved_is_saved<V>(saved: Seq<(String, V)>, name: Seq<char>)
    ensures
        first_saved(saved, name) matches Some(v) ==> exists|i: int|
            0 <= i < saved.len() && (#[trigger] saved[i]).0@ == name && saved[i].1 == v,
    decreases saved.len(),
{
    if saved.len() > 0 && saved[0].0@ != name {
        lemma_first_saved_is_saved(saved.drop_first(), name);
        if let Some(v) = first_saved(saved, name) {
            let i = choose|i: int|
                0 <= i < saved.drop_first().len() && (#[trigger] saved.drop_first()[i]).0@ == name
                    && saved.drop_first()[i].1 == v;
            assert(saved[i + 1] == saved.drop_first()[i]);
        }
    }
}

/// Restoring values that were saved from the controls themselves changes
/// nothing: when every saved value of a control's name is that control's
/// value, every control keeps its value.
pub proof fn law_restore_own_values<V>(values: Map<Seq<char>, V>, saved: Seq<(String, V)>)
    requires
        forall|i: int|
            0 <= i < saved.len() && values.contains_key((#[trigger] saved[i]).0@) ==> saved[i].1 == values[saved[i].0@],
    ensures
        merged(values, saved) == values,
{
    assert forall|k: Seq<char>| values.contains_key(k) implies #[trigger] merged(values, saved)[k] == values[k] by {
        lemma_first_saved_is_saved(saved, k);
    }
    assert(merged(values, saved) =~= values);
}


/// `m` with each of `items` stored in turn, a later one replacing an
/// earlier one of the same name.
pub open spec fn inserted<V>(m: Map<Seq<char>, V>, items: Seq<(String, V)>) -> Map<Seq<char>, V>
    decreases items.len(),
{
    if items.len() == 0 {
        m
    } else {
        inserted(m, items.drop_last()).insert(items.last().0@, items.last().1)
    }
}

/// Stores each of `items` in `values`, in order.
fn insert_all<V>(values: &mut NamedMap<V>, items: Vec<(String, V)>)
    ensures
        final(values)@ == inserted(old(values)@, items@),
{
    let ghost all = items@;
    let ghost m0 = values@;
    let mut items = items;
    assert(all.take(0) =~= Seq::<(String, V)>::empty());
    while items.len() > 0
        invariant
            items@.len() <= all.len(),
            items@ == all.skip(all.len() - items@.len()),
            values@ == inserted(m0, all.take(all.len() - items@.len())),
        decreases items.len(),
    {
        let ghost j = all.len() - items@.len();
        let (name, v) = items.remove(0);
        proof {
            assert(all.skip(j)[0] == all[j]);
            assert(all.skip(j).remove(0) =~= all.skip(j + 1));
            assert(all.take(j + 1).drop_last() =~= all.take(j));
            assert(all.take(j + 1).last() == all[j]);
        }
        values.insert(name.as_str(), v);
    }
    assert(all.take(all.len() as int) =~= all);
}

/// The values of a saved snapshot: those of its user-interface controls,
/// then of its MIDI controls, then of its OSC controls, a later value
/// replacing an earlier one of the same name.
pub fn snapshot_values<V>(ui: Vec<(String, V)>, midi: Vec<(String, V)>, osc: Vec<(String, V)>) -> (r: NamedMap<V>)
    ensures
        r@ == inserted(inserted(inserted(Map::empty(), ui@), midi@), osc@),
{
    let mut values: NamedMap<V> = NamedMap::new();
    insert_all(&mut values, ui);
    insert_all(&mut values, midi);
    insert_all(&mut values, osc);
    values
}
} // verus!
