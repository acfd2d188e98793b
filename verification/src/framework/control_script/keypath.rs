//! Key paths of parameters inside lists, such as `breakpoints.2.value`: the
//! list's key, the item's index and the item's own key, joined by dots.
use vstd::prelude::*;

use crate::framework::decimal::{decimal, is_digit, lemma_decimal_digits, law_parse_decimal, parse_usize, parse_usize_spec, usize_to_string};
use crate::framework::text::{chars_of, find_from, match_at, split, split_chars, split_from, string_from_chars};

verus! {

/// The key path of parameter `sub` of item `index` of the list `key`.
pub open spec fn keypath_spec(key: Seq<char>, index: nat, sub: Seq<char>) -> Seq<char> {
    key + "."@ + decimal(index) + "."@ + sub
}

/// The key path of parameter `sub` of item `index` of the list `key`.
pub fn keypath(key: &str, index: usize, sub: &str) -> (r: String)
    ensures
        r@ == keypath_spec(key@, index as nat, sub@),
{
    let head = key.to_owned();
    let a = head.concat(".");
    let n = usize_to_string(index);
    let b = a.concat(n.as_str());
    let c = b.concat(".");
    c.concat(sub)
}

/// Which breakpoint a key path addresses.
#[derive(Clone, Copy, Debug, PartialEq, Eq, Structural)]
pub enum KeypathIndex {
    /// Fewer than three segments.
    Unrecognized,
    /// The second segment is no index.
    NotAnIndex,
    /// The breakpoint at this index.
    Index(usize),
}

/// Which breakpoint the key path `name` addresses: the index in its second
/// dot-separated segment, when it has three segments or more.
pub open spec fn keypath_index_spec(name: Seq<char>) -> KeypathIndex {
    let segments = split(name, "."@);
    if segments.len() < 3 {
        KeypathIndex::Unrecognized
    } else {
        match parse_usize_spec(segments[1]) {
            Some(i) => KeypathIndex::Index(i),
            None => KeypathIndex::NotAnIndex,
        }
    }
}

/// Which breakpoint the key path `name` addresses (see
/// [`keypath_index_spec`]).
pub fn keypath_index(name: &str) -> (r: KeypathIndex)
    ensures
        r == keypath_index_spec(name@),
{
    let cs = chars_of(name);
    let dot = chars_of(".");
    proof {
        reveal_strlit(".");
    }
    let segments = split_chars(&cs, &dot);
    proof {
        assert(segments@.map_values(|x: Vec<char>| x@).len() == segments@.len());
    }
    if segments.len() < 3 {
        return KeypathIndex::Unrecognized;
    }
    proof {
        assert(segments@.map_values(|x: Vec<char>| x@)[1] == segments@[1]@);
    }
    let second = string_from_chars(segments[1].as_slice());
    match parse_usize(second.as_str()) {
        Some(i) => KeypathIndex::Index(i),
        None => KeypathIndex::NotAnIndex,
    }
}


proof fn lemma_find_char(s: Seq<char>, c: char, i: int, j: int)
    requires
        0 <= i <= j < s.len(),
        s[j] == c,
        forall|k: int| i <= k < j ==> s[k] != c,
    ensures
        find_from(s, seq![c], i) == Some(j),
    decreases j - i,
{
    if i < j {
        assert(!match_at(s, seq![c], i)) by {
            if match_at(s, seq![c], i) {
                assert(s.subrange(i, i + 1)[0] == s[i]);
            }
        }
        lemma_find_char(s, c, i + 1, j);
    } else {
        assert(s.subrange(j, j + 1) =~= seq![c]);
    }
}

/// The index read back from the key path of item `i` of a list is `i`,
/// when the list's key holds no dot: a reference found inside a list
/// resolves to the item it was found in.
pub proof fn law_keypath_index(key: Seq<char>, i: usize, sub: Seq<char>)
    requires
        forall|k: int| 0 <= k < key.len() ==> key[k] != '.',
    ensures
        keypath_index_spec(keypath_spec(key, i as nat, sub)) == KeypathIndex::Index(i),
{
    reveal_strlit(".");
    let d = decimal(i as nat);
    lemma_decimal_digits(i as nat);
    law_parse_decimal(i);
    let s = keypath_spec(key, i as nat, sub);
    let p = "."@;
    assert(p =~= seq!['.']);
    let kl = key.len() as int;
    let dl = d.len() as int;
    assert(s =~= key + seq!['.'] + d + seq!['.'] + sub);
    assert(s[kl] == '.');
    assert(s[kl + 1 + dl] == '.');
    assert forall|k: int| 0 <= k < kl implies s[k] != '.' by {
        assert(s[k] == key[k]);
    }
    assert forall|k: int| kl + 1 <= k < kl + 1 + dl implies s[k] != '.' by {
        assert(s[k] == d[k - kl - 1]);
        assert(is_digit(d[k - kl - 1]));
    }
    lemma_find_char(s, '.', 0, kl);
    lemma_find_char(s, '.', kl + 1, kl + 1 + dl);
    assert(split(s, p) == seq![s.subrange(0, kl)] + split_from(s, p, kl + 1));
    assert(split_from(s, p, kl + 1) == seq![s.subrange(kl + 1, kl + 1 + dl)] + split_from(s, p, kl + 2 + dl));
    assert(s.subrange(kl + 1, kl + 1 + dl) =~= d);
    assert(split_from(s, p, kl + 2 + dl).len() >= 1);
    assert(split(s, p)[1] == d);
}

} // verus!
