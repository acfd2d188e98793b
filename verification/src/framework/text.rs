//! Character-sequence utilities with the semantics of the standard string
//! methods the configuration parsers use: whitespace trimming, substring
//! search, splitting and prefix stripping.
use vstd::prelude::*;

verus! {

/// The Unicode `White_Space` property, which `char::is_whitespace` tests.
pub open spec fn is_ws(c: char) -> bool {
    ||| ('\u{9}' <= c && c <= '\u{d}')
    ||| c == ' '
    ||| c == '\u{85}'
    ||| c == '\u{a0}'
    ||| c == '\u{1680}'
    ||| ('\u{2000}' <= c && c <= '\u{200a}')
    ||| c == '\u{2028}'
    ||| c == '\u{2029}'
    ||| c == '\u{202f}'
    ||| c == '\u{205f}'
    ||| c == '\u{3000}'
}

/// `s` without its leading whitespace.
pub open spec fn trim_start(s: Seq<char>) -> Seq<char>
    decreases s.len(),
{
    if s.len() > 0 && is_ws(s[0]) {
        trim_start(s.drop_first())
    } else {
        s
    }
}

/// `s` without its trailing whitespace.
pub open spec fn trim_end(s: Seq<char>) -> Seq<char>
    decreases s.len(),
{
    if s.len() > 0 && is_ws(s.last()) {
        trim_end(s.drop_last())
    } else {
        s
    }
}

/// `s` without leading and trailing whitespace (`str::trim`).
pub open spec fn trim(s: Seq<char>) -> Seq<char> {
    trim_end(trim_start(s))
}

/// `p` occurs in `s` at position `i`.
pub open spec fn match_at(s: Seq<char>, p: Seq<char>, i: int) -> bool {
    0 <= i && i + p.len() <= s.len() && s.subrange(i, i + p.len()) == p
}

/// The first position at or after `i` where `p` occurs in `s`.
pub open spec fn find_from(s: Seq<char>, p: Seq<char>, i: int) -> Option<int>
    decreases s.len() + 1 - i,
{
    if i < 0 || i + p.len() > s.len() {
        None
    } else if match_at(s, p, i) {
        Some(i)
    } else {
        find_from(s, p, i + 1)
    }
}

/// `p` occurs somewhere in `s` (`str::contains`).
pub open spec fn contains_seq(s: Seq<char>, p: Seq<char>) -> bool {
    find_from(s, p, 0) is Some
}

/// `s` starts with `p` (`str::starts_with`).
pub open spec fn starts_with(s: Seq<char>, p: Seq<char>) -> bool {
    p.len() <= s.len() && s.take(p.len() as int) == p
}

pub proof fn lemma_find_from_range(s: Seq<char>, p: Seq<char>, i: int)
    ensures
        find_from(s, p, i) matches Some(j) ==> i <= j && j + p.len() <= s.len() && match_at(s, p, j),
    decreases s.len() + 1 - i,
{
    if !(i < 0 || i + p.len() > s.len()) && !match_at(s, p, i) {
        lemma_find_from_range(s, p, i + 1);
    }
}

/// Every character of `s` is whitespace.
pub open spec fn all_ws(s: Seq<char>) -> bool {
    forall|k: int| 0 <= k < s.len() ==> is_ws(#[trigger] s[k])
}

/// Trimming the end keeps a prefix, after which there is only whitespace
/// and before which (when it is not empty) there is none.
pub proof fn lemma_trim_end_split(s: Seq<char>) -> (b: int)
    ensures
        0 <= b <= s.len(),
        trim_end(s) == s.take(b),
        all_ws(s.skip(b)),
        b == 0 || !is_ws(s[b - 1]),
    decreases s.len(),
{
    if s.len() > 0 && is_ws(s.last()) {
        let b = lemma_trim_end_split(s.drop_last());
        assert(s.drop_last().take(b) =~= s.take(b));
        assert forall|k: int| 0 <= k < s.skip(b).len() implies is_ws(#[trigger] s.skip(b)[k]) by {
            if b + k < s.len() - 1 {
                assert(s.skip(b)[k] == s.drop_last().skip(b)[k]);
            }
        }
        b
    } else {
        assert(s.take(s.len() as int) =~= s);
        s.len() as int
    }
}

/// Leading whitespace of `x + y` is that of `x` when `x` is not all
/// whitespace.
pub proof fn lemma_trim_start_concat(x: Seq<char>, y: Seq<char>)
    ensures
        !all_ws(x) ==> trim_start(x + y) == trim_start(x) + y,
        all_ws(x) ==> trim_start(x + y) == trim_start(y),
    decreases x.len(),
{
    if x.len() == 0 {
        assert(x + y =~= y);
    } else {
        assert((x + y)[0] == x[0]);
        assert((x + y).drop_first() =~= x.drop_first() + y);
        lemma_trim_start_concat(x.drop_first(), y);
        if is_ws(x[0]) {
            if !all_ws(x) {
                let k = choose|k: int| 0 <= k < x.len() && !is_ws(#[trigger] x[k]);
                assert(x.drop_first()[k - 1] == x[k]);
            } else {
                assert forall|k: int| 0 <= k < x.drop_first().len() implies is_ws(#[trigger] x.drop_first()[k]) by {
                    assert(x.drop_first()[k] == x[k + 1]);
                }
            }
        } else {
            assert(!all_ws(x));
        }
    }
}

/// Trailing whitespace after `z` is dropped.
pub proof fn lemma_trim_end_ws_suffix(z: Seq<char>, w: Seq<char>)
    requires
        all_ws(w),
    ensures
        trim_end(z + w) == trim_end(z),
    decreases w.len(),
{
    if w.len() == 0 {
        assert(z + w =~= z);
    } else {
        assert((z + w).last() == w.last());
        assert((z + w).drop_last() =~= z + w.drop_last());
        assert(is_ws(w[w.len() - 1]));
        assert forall|k: int| 0 <= k < w.drop_last().len() implies is_ws(#[trigger] w.drop_last()[k]) by {
            assert(w.drop_last()[k] == w[k]);
        }
        lemma_trim_end_ws_suffix(z, w.drop_last());
    }
}

/// Trimming ignores a trimmed end.
pub proof fn lemma_trim_trim_end(c: Seq<char>)
    ensures
        trim(trim_end(c)) == trim(c),
{
    let b = lemma_trim_end_split(c);
    let u = c.take(b);
    let w = c.skip(b);
    assert(c =~= u + w);
    lemma_trim_start_concat(u, w);
    if !all_ws(u) {
        lemma_trim_end_ws_suffix(trim_start(u), w);
    } else {
        if b > 0 {
            assert(is_ws(u[b - 1]));
        }
        assert(u.len() == 0);
        assert(u + w =~= w);
        lemma_trim_start_concat(w, Seq::empty());
        assert(w + Seq::<char>::empty() =~= w);
        lemma_trim_start_all_ws(w);
    }
}

proof fn lemma_trim_start_all_ws(w: Seq<char>)
    requires
        all_ws(w),
    ensures
        trim_start(w) == Seq::<char>::empty(),
    decreases w.len(),
{
    if w.len() > 0 {
        assert(is_ws(w[0]));
        assert forall|k: int| 0 <= k < w.drop_first().len() implies is_ws(#[trigger] w.drop_first()[k]) by {
            assert(w.drop_first()[k] == w[k + 1]);
        }
        lemma_trim_start_all_ws(w.drop_first());
    }
}

/// Trailing whitespace is trimmed after a prefix that does not end in
/// whitespace.
pub proof fn lemma_trim_end_prefix(p: Seq<char>, c: Seq<char>)
    requires
        p.len() > 0,
        !is_ws(p.last()),
    ensures
        trim_end(p + c) == p + trim_end(c),
    decreases c.len(),
{
    if c.len() == 0 {
        assert(p + c =~= p);
        assert(p + trim_end(c) =~= p);
    } else {
        assert((p + c).last() == c.last());
        if is_ws(c.last()) {
            assert((p + c).drop_last() =~= p + c.drop_last());
            lemma_trim_end_prefix(p, c.drop_last());
        }
    }
}

/// The pieces of `s[start..]` between the non-overlapping occurrences of `p`,
/// found from the left (`str::split` with a non-empty pattern).
pub open spec fn split_from(s: Seq<char>, p: Seq<char>, start: int) -> Seq<Seq<char>>
    decreases s.len() - start,
{
    if p.len() == 0 || start < 0 || start > s.len() {
        seq![s.subrange(start, s.len() as int)]
    } else {
        match find_from(s, p, start) {
            None => seq![s.subrange(start, s.len() as int)],
            Some(i) => {
                proof {
                    lemma_find_from_range(s, p, start);
                }
                seq![s.subrange(start, i)] + split_from(s, p, i + p.len())
            },
        }
    }
}

pub open spec fn split(s: Seq<char>, p: Seq<char>) -> Seq<Seq<char>> {
    split_from(s, p, 0)
}

/// Each piece trimmed.
pub open spec fn trim_all(parts: Seq<Seq<char>>) -> Seq<Seq<char>> {
    parts.map_values(|x: Seq<char>| trim(x))
}

/// Whether `c` is whitespace (`char::is_whitespace`).
pub fn is_whitespace(c: char) -> (r: bool)
    ensures
        r == is_ws(c),
{
    ('\u{9}' <= c && c <= '\u{d}') || c == ' ' || c == '\u{85}' || c == '\u{a0}' || c == '\u{1680}' || (
    '\u{2000}' <= c && c <= '\u{200a}') || c == '\u{2028}' || c == '\u{2029}' || c == '\u{202f}' || c
        == '\u{205f}' || c == '\u{3000}'
}

/// The characters of `s`.
pub fn chars_of(s: &str) -> (r: Vec<char>)
    ensures
        r@ == s@,
{
    let mut r: Vec<char> = Vec::new();
    for c in it: s.chars()
        invariant
            r@ == it.seq().take(it.index() as int),
    {
        r.push(c);
    }
    r
}

/// `s[lo..hi]` as a new vector.
pub fn slice_of(s: &Vec<char>, lo: usize, hi: usize) -> (r: Vec<char>)
    requires
        lo <= hi <= s.len(),
    ensures
        r@ == s@.subrange(lo as int, hi as int),
{
    let mut r: Vec<char> = Vec::new();
    let mut i = lo;
    while i < hi
        invariant
            lo <= i <= hi,
            hi <= s.len(),
            r@ == s@.subrange(lo as int, i as int),
        decreases hi - i,
    {
        r.push(s[i]);
        proof {
            assert(s@.subrange(lo as int, i + 1) =~= s@.subrange(lo as int, i as int).push(s@[i as int]));
        }
        i = i + 1;
    }
    r
}

proof fn lemma_trim_start_skip(s: Seq<char>, i: int)
    requires
        0 <= i <= s.len(),
        forall|k: int| 0 <= k < i ==> is_ws(s[k]),
    ensures
        trim_start(s) == trim_start(s.skip(i)),
    decreases i,
{
    if i > 0 {
        assert(s.skip(1) =~= s.drop_first());
        assert(s.drop_first().skip(i - 1) =~= s.skip(i));
        lemma_trim_start_skip(s.drop_first(), i - 1);
    } else {
        assert(s.skip(0) =~= s);
    }
}

proof fn lemma_trim_end_take(s: Seq<char>, j: int)
    requires
        0 <= j <= s.len(),
        forall|k: int| j <= k < s.len() ==> is_ws(s[k]),
    ensures
        trim_end(s) == trim_end(s.take(j)),
    decreases s.len() - j,
{
    if j < s.len() {
        assert(s.drop_last().take(j) =~= s.take(j));
        lemma_trim_end_take(s.drop_last(), j);
    } else {
        assert(s.take(j) =~= s);
    }
}

/// `s` without leading and trailing whitespace.
pub fn trim_chars(s: &Vec<char>) -> (r: Vec<char>)
    ensures
        r@ == trim(s@),
{
    let mut i: usize = 0;
    while i < s.len() && is_whitespace(s[i])
        invariant
            0 <= i <= s.len(),
            forall|k: int| 0 <= k < i ==> is_ws(s@[k]),
        decreases s.len() - i,
    {
        i = i + 1;
    }
    proof {
        lemma_trim_start_skip(s@, i as int);
    }
    let mut j: usize = s.len();
    while j > i && is_whitespace(s[j - 1])
        invariant
            i <= j <= s.len(),
            forall|k: int| j <= k < s.len() ==> is_ws(s@[k]),
        decreases j,
    {
        j = j - 1;
    }
    let r = slice_of(s, i, j);
    proof {
        let t = s@.skip(i as int);
        assert(trim_start(t) == t);
        assert forall|k: int| j - i <= k < t.len() implies is_ws(t[k]) by {
            assert(t[k] == s@[k + i]);
        }
        lemma_trim_end_take(t, j - i);
        assert(t.take(j - i) =~= s@.subrange(i as int, j as int));
        if j > i {
            assert(t.take(j - i).last() == s@[j - 1]);
        }
    }
    r
}

/// Whether `p` occurs in `s` at position `i`.
pub fn matches_at(s: &Vec<char>, p: &Vec<char>, i: usize) -> (r: bool)
    ensures
        r == match_at(s@, p@, i as int),
{
    if p.len() > s.len() || i > s.len() - p.len() {
        return false;
    }
    let mut k: usize = 0;
    while k < p.len()
        invariant
            0 <= k <= p.len(),
            i + p.len() <= s.len(),
            forall|t: int| 0 <= t < k ==> s@[i + t] == p@[t],
        decreases p.len() - k,
    {
        if s[i + k] != p[k] {
            proof {
                assert(s@.subrange(i as int, i + p.len())[k as int] != p@[k as int]);
            }
            return false;
        }
        k = k + 1;
    }
    proof {
        assert(s@.subrange(i as int, i + p.len()) =~= p@);
    }
    true
}

/// The first position at or after `start` where `p` occurs in `s`.
pub fn find_chars(s: &Vec<char>, p: &Vec<char>, start: usize) -> (r: Option<usize>)
    ensures
        match r {
            Some(i) => find_from(s@, p@, start as int) == Some(i as int),
            None => find_from(s@, p@, start as int) is None,
        },
{
    if p.len() > s.len() || start > s.len() - p.len() {
        return None;
    }
    let mut i = start;
    loop
        invariant
            start <= i,
            p.len() <= s.len(),
            i <= s.len() - p.len(),
            find_from(s@, p@, start as int) == find_from(s@, p@, i as int),
        decreases s.len() - p.len() - i,
    {
        if matches_at(s, p, i) {
            return Some(i);
        }
        if i == s.len() - p.len() {
            proof {
                assert(find_from(s@, p@, i as int + 1) is None);
            }
            return None;
        }
        i = i + 1;
    }
}

/// The pieces of `s` between the occurrences of the non-empty pattern `p`.
pub fn split_chars(s: &Vec<char>, p: &Vec<char>) -> (r: Vec<Vec<char>>)
    requires
        p.len() > 0,
    ensures
        r@.map_values(|x: Vec<char>| x@) == split(s@, p@),
{
    let mut r: Vec<Vec<char>> = Vec::new();
    let mut start: usize = 0;
    loop
        invariant
            p.len() > 0,
            start <= s.len(),
            r@.map_values(|x: Vec<char>| x@) + split_from(s@, p@, start as int) == split(s@, p@),
        decreases s.len() - start,
    {
        let found = find_chars(s, p, start);
        proof {
            lemma_find_from_range(s@, p@, start as int);
        }
        match found {
            Some(i) => {
                let piece = slice_of(s, start, i);
                let ghost r0 = r@;
                r.push(piece);
                proof {
                    assert(r@.map_values(|x: Vec<char>| x@) =~= r0.map_values(|x: Vec<char>| x@).push(
                        s@.subrange(start as int, i as int),
                    ));
                    assert(split_from(s@, p@, start as int) == seq![s@.subrange(start as int, i as int)]
                        + split_from(s@, p@, i + p.len()));
                    assert(r0.map_values(|x: Vec<char>| x@) + split_from(s@, p@, start as int)
                        =~= r@.map_values(|x: Vec<char>| x@) + split_from(s@, p@, i + p.len()));
                }
                start = i + p.len();
            },
            None => {
                let piece = slice_of(s, start, s.len());
                let ghost r0 = r@;
                r.push(piece);
                proof {
                    assert(r@.map_values(|x: Vec<char>| x@) =~= r0.map_values(|x: Vec<char>| x@)
                        + split_from(s@, p@, start as int));
                }
                return r;
            },
        }
    }
}

/// The text after `p` when `s` starts with `p`.
pub fn strip_prefix_chars(s: &Vec<char>, p: &Vec<char>) -> (r: Option<Vec<char>>)
    ensures
        starts_with(s@, p@) ==> r is Some && r.unwrap()@ == s@.skip(p.len() as int),
        !starts_with(s@, p@) ==> r is None,
{
    if matches_at(s, p, 0) {
        proof {
            assert(s@.subrange(0, p.len() as int) =~= s@.take(p.len() as int));
        }
        Some(slice_of(s, p.len(), s.len()))
    } else {
        proof {
            assert(s@.subrange(0, p.len() as int) =~= s@.take(p.len() as int));
        }
        None
    }
}

/// A string holding the characters `chars`, built by std's
/// `String::from_iter` (`FromIterator<&char> for String`). Trusted, not
/// proved: the contract claims that the string's characters are exactly
/// `chars`, in order, as that impl's documentation says.
#[verifier::external_body]
pub(crate) fn string_from_chars(chars: &[char]) -> (r: String)
    ensures
        r@ == chars@,
{
    String::from_iter(chars)
}

/// String equality by contents.
pub fn str_eq(a: &str, b: &str) -> (r: bool)
    ensures
        r == (a@ == b@),
{
    let x = a.to_owned();
    let y = b.to_owned();
    x == y
}

} // verus!
