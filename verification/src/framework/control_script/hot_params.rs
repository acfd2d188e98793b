//! The parameters of a control configuration that refer to other controls
//! (`$name`), found at the top level of the configuration and inside the
//! mappings of its lists, where they are named by key path.
use vstd::prelude::*;

use super::keypath::keypath;
use crate::framework::decimal::decimal;
use crate::framework::named_map::NamedMap;
use crate::framework::param_mod::is_reference;
use crate::framework::text::{chars_of, slice_of, string_from_chars};

verus! {

/// A configuration value, as far as references are concerned.
pub enum ConfigValue {
    /// A mapping; `None` stands for a key that is not a string.
    Mapping(Vec<(Option<String>, ConfigValue)>),
    Sequence(Vec<ConfigValue>),
    String(String),
    /// A number, a boolean, null or a tagged value.
    Other,
}

/// The texts of a map of strings.
pub open spec fn text_map(m: Map<Seq<char>, String>) -> Map<Seq<char>, Seq<char>> {
    m.map_values(|s: String| s@)
}

/// The entries of `sub` under keys that start with `p`.
pub open spec fn prefixed(sub: Map<Seq<char>, Seq<char>>, p: Seq<char>) -> Map<Seq<char>, Seq<char>> {
    Map::new(
        |key: Seq<char>| key.len() >= p.len() && key.take(p.len() as int) == p && sub.contains_key(
            key.skip(p.len() as int),
        ),
        |key: Seq<char>| sub[key.skip(p.len() as int)],
    )
}

/// The references of a configuration value, by key path, to the names they
/// refer to; `None` when a key that is searched is not a string.
pub open spec fn hot_spec(v: ConfigValue) -> Option<Map<Seq<char>, Seq<char>>>
    decreases v, 0nat, 0nat,
{
    match v {
        ConfigValue::Mapping(entries) => entries_hot(entries@, entries@.len() as int),
        _ => Some(Map::empty()),
    }
}

/// The references of the first `n` entries of a mapping.
pub open spec fn entries_hot(es: Seq<(Option<String>, ConfigValue)>, n: int) -> Option<
    Map<Seq<char>, Seq<char>>,
>
    decreases es, 1nat, n,
{
    if n <= 0 || n > es.len() {
        Some(Map::empty())
    } else {
        match entries_hot(es, n - 1) {
            None => None,
            Some(m) => match es[n - 1].0 {
                None => None,
                Some(k) => match es[n - 1].1 {
                    ConfigValue::String(s) => if is_reference(s@) {
                        Some(m.insert(k@, s@.skip(1)))
                    } else {
                        Some(m)
                    },
                    ConfigValue::Sequence(items) => {
                        proof {
                            assert(decreases_to!(es => es[n - 1]));
                        }
                        seq_hot(m, k@, items@, items@.len() as int)
                    },
                    _ => Some(m),
                },
            },
        }
    }
}

/// `m` with the references of the first `n` items of the list `key`.
pub open spec fn seq_hot(m: Map<Seq<char>, Seq<char>>, key: Seq<char>, items: Seq<ConfigValue>, n: int) -> Option<
    Map<Seq<char>, Seq<char>>,
>
    decreases items, 0nat, n,
{
    if n <= 0 || n > items.len() {
        Some(m)
    } else {
        match seq_hot(m, key, items, n - 1) {
            None => None,
            Some(m1) => match hot_spec(items[n - 1]) {
                None => None,
                Some(sub) => Some(m1.union_prefer_right(prefixed(sub, key + "."@ + decimal((n - 1) as nat) + "."@))),
            },
        }
    }
}


proof fn lemma_prefixed_insert(
    sub: Map<Seq<char>, Seq<char>>,
    done: Set<Seq<char>>,
    n: Seq<char>,
    p: Seq<char>,
)
    requires
        sub.contains_key(n),
    ensures
        prefixed(sub.restrict(done.insert(n)), p) == prefixed(sub.restrict(done), p).insert(p + n, sub[n]),
{
    assert((p + n).take(p.len() as int) =~= p);
    assert((p + n).skip(p.len() as int) =~= n);
    assert forall|key: Seq<char>| key.len() >= p.len() && key.take(p.len() as int) == p implies key == p + key.skip(
        p.len() as int,
    ) by {
        assert(key =~= p + key.skip(p.len() as int));
    }
    assert(prefixed(sub.restrict(done.insert(n)), p) =~= prefixed(sub.restrict(done), p).insert(p + n, sub[n]));
}

/// `out` with the entries of `sub` added under `p` followed by their keys.
fn add_prefixed(out: &mut NamedMap<String>, sub: &NamedMap<String>, p: &String)
    ensures
        text_map(final(out)@) == text_map(old(out)@).union_prefer_right(prefixed(text_map(sub@), p@)),
{
    let n = sub.len();
    let ghost m0 = text_map(out@);
    let ghost s = text_map(sub@);
    let ghost mut done: Set<Seq<char>> = Set::empty();
    assert(s.restrict(done) =~= Map::<Seq<char>, Seq<char>>::empty());
    assert(prefixed(Map::<Seq<char>, Seq<char>>::empty(), p@) =~= Map::<Seq<char>, Seq<char>>::empty());
    assert(m0.union_prefer_right(Map::<Seq<char>, Seq<char>>::empty()) =~= m0);
    let mut t: usize = 0;
    while t < n
        invariant
            0 <= t <= n,
            n == sub.names().len(),
            s == text_map(sub@),
            forall|k: Seq<char>| sub@.contains_key(k) <==> sub.names().contains(k),
            forall|j: int| 0 <= j < t ==> done.contains(#[trigger] sub.names()[j]),
            text_map(out@) == m0.union_prefer_right(prefixed(s.restrict(done), p@)),
        decreases n - t,
    {
        let (name, target) = sub.entry_at(t);
        let key = p.clone().concat(name.as_str());
        let ghost before = text_map(out@);
        out.insert(key.as_str(), target.clone());
        proof {
            assert(s.contains_key(name@));
            assert(s[name@] == target@);
            lemma_prefixed_insert(s, done, name@, p@);
            assert(text_map(out@) =~= before.insert(p@ + name@, target@));
            done = done.insert(name@);
            assert(text_map(out@) =~= m0.union_prefer_right(prefixed(s.restrict(done), p@)));
        }
        t = t + 1;
    }
    proof {
        assert forall|k: Seq<char>| s.contains_key(k) implies done.contains(k) by {
            assert(sub.names().contains(k));
            let j = choose|j: int| 0 <= j < sub.names().len() && sub.names()[j] == k;
            assert(done.contains(sub.names()[j]));
        }
        assert(s.restrict(done) =~= s);
    }
}

/// The references of a configuration value, by key path (see
/// [`hot_spec`]). Every key that is searched must be a string.
pub fn find_hot_params(v: &ConfigValue) -> (r: NamedMap<String>)
    requires
        hot_spec(*v) is Some,
    ensures
        hot_spec(*v) == Some(text_map(r@)),
{
    match try_find_hot_params(v) {
        Some(m) => m,
        None => {
            proof {
                assert(false);
            }
            NamedMap::new()
        },
    }
}

/// The references of a configuration value, by key path (see
/// [`hot_spec`]); `None` when a key that is searched is not a string.
pub fn try_find_hot_params(v: &ConfigValue) -> (r: Option<NamedMap<String>>)
    ensures
        r matches Some(m) ==> hot_spec(*v) == Some(text_map(m@)),
        r is None ==> hot_spec(*v) is None,
    decreases v,
{
    let entries = match v {
        ConfigValue::Mapping(entries) => entries,
        _ => {
            return Some(NamedMap::new());
        },
    };
    let mut out: NamedMap<String> = NamedMap::new();
    let mut i: usize = 0;
    while i < entries.len()
        invariant
            0 <= i <= entries.len(),
            *v == ConfigValue::Mapping(*entries),
            entries_hot(entries@, i as int) == Some(text_map(out@)),
        decreases entries.len() - i,
    {
        let key = match &entries[i].0 {
            Some(k) => k,
            None => {
                proof {
                    lemma_entries_none_stays(entries@, i as int + 1);
                }
                return None;
            },
        };
        match &entries[i].1 {
            ConfigValue::String(s) => {
                let cs = chars_of(s.as_str());
                if cs.len() > 0 && cs[0] == '$' {
                    let rest = slice_of(&cs, 1, cs.len());
                    assert(rest@ =~= s@.skip(1));
                    out.insert(key.as_str(), string_from_chars(rest.as_slice()));
                }
            },
            ConfigValue::Sequence(items) => {
                let ghost m0 = text_map(out@);
                let mut j: usize = 0;
                while j < items.len()
                    invariant
                        0 <= j <= items.len(),
                        0 <= i < entries.len(),
                        *v == ConfigValue::Mapping(*entries),
                        entries@[i as int].0 == Some(*key),
                        entries@[i as int].1 == ConfigValue::Sequence(*items),
                        entries_hot(entries@, i as int) == Some(m0),
                        seq_hot(m0, key@, items@, j as int) == Some(text_map(out@)),
                    decreases items.len() - j,
                {
                    proof {
                        assert((*v)->Mapping_0 == *entries);
                        assert(decreases_to!(*v => (*v)->Mapping_0));
                        assert(decreases_to!(*entries => entries@));
                        assert(decreases_to!(entries@ => entries@[i as int]));
                        assert(decreases_to!(entries@[i as int] => entries@[i as int].1));
                        assert(entries@[i as int].1->Sequence_0 == *items);
                        assert(decreases_to!(entries@[i as int].1 => entries@[i as int].1->Sequence_0));
                        assert(decreases_to!(*items => items@));
                        assert(decreases_to!(items@ => items@[j as int]));
                    }
                    match try_find_hot_params(&items[j]) {
                        Some(sub) => {
                            let prefix = keypath(key.as_str(), j, "");
                            proof {
                                reveal_strlit("");
                                assert(prefix@ =~= key@ + "."@ + decimal(j as nat) + "."@);
                            }
                            add_prefixed(&mut out, &sub, &prefix);
                        },
                        None => {
                            proof {
                                lemma_seq_none_stays(m0, key@, items@, j as int + 1);
                                lemma_entries_none_stays(entries@, i as int + 1);
                            }
                            return None;
                        },
                    }
                    j = j + 1;
                }
            },
            _ => {},
        }
        i = i + 1;
    }
    Some(out)
}

proof fn lemma_entries_none_stays(es: Seq<(Option<String>, ConfigValue)>, n: int)
    requires
        0 < n <= es.len(),
        entries_hot(es, n) is None,
    ensures
        entries_hot(es, es.len() as int) is None,
    decreases es.len() - n,
{
    if n < es.len() {
        lemma_entries_none_stays(es, n + 1);
    }
}

proof fn lemma_seq_none_stays(m: Map<Seq<char>, Seq<char>>, key: Seq<char>, items: Seq<ConfigValue>, n: int)
    requires
        0 < n <= items.len(),
        seq_hot(m, key, items, n) is None,
    ensures
        seq_hot(m, key, items, items.len() as int) is None,
    decreases items.len() - n,
{
    if n < items.len() {
        lemma_seq_none_stays(m, key, items, n + 1);
    }
}

} // verus!
