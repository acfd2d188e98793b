//! Evaluation order of a graph of nodes whose parameters may refer to other
//! nodes ("hot" parameters), computed with Kahn's topological sort.
use vstd::prelude::*;

use super::param_mod::{Node, ParamValue};
use super::text::str_eq;

verus! {

/// The (dependent, dependency) name pairs contributed by the parameters
/// `params[0..k]` of the node called `name`, in parameter order.
pub open spec fn node_pairs<C>(name: Seq<char>, params: Seq<(String, ParamValue<C>)>) -> Seq<(Seq<char>, Seq<char>)>
    decreases params.len(),
{
    if params.len() == 0 {
        Seq::empty()
    } else {
        let rest = node_pairs(name, params.drop_last());
        match params.last().1 {
            ParamValue::Hot(h) => rest.push((name, h@)),
            ParamValue::Cold(_) => rest,
        }
    }
}

/// All (dependent, dependency) pairs of a graph, in entry and parameter order.
pub open spec fn hot_pairs<C>(g: Seq<(String, Node<C>)>) -> Seq<(Seq<char>, Seq<char>)>
    decreases g.len(),
{
    if g.len() == 0 {
        Seq::empty()
    } else {
        hot_pairs(g.drop_last()) + node_pairs(g.last().0@, g.last().1@)
    }
}

/// `dependent` has a hot parameter that names `dependency`.
pub open spec fn depends_on<C>(g: Seq<(String, Node<C>)>, dependent: Seq<char>, dependency: Seq<char>) -> bool {
    hot_pairs(g).contains((dependent, dependency))
}

/// A name takes part in the dependency graph: it depends on something, or
/// something depends on it.
pub open spec fn in_graph<C>(g: Seq<(String, Node<C>)>, x: Seq<char>) -> bool {
    exists|y: Seq<char>|
        #![trigger depends_on(g, x, y)]
        #![trigger depends_on(g, y, x)]
        depends_on(g, x, y) || depends_on(g, y, x)
}

/// `order` lists every name of the graph exactly once, and every dependency
/// before each of its dependents.
pub open spec fn is_eval_order<C>(g: Seq<(String, Node<C>)>, order: Seq<Seq<char>>) -> bool {
    &&& order.no_duplicates()
    &&& forall|x: Seq<char>| order.contains(x) <==> in_graph(g, x)
    &&& forall|i: int, j: int|
        0 <= i < order.len() && 0 <= j < order.len() && depends_on(g, order[j], order[i]) ==> i < j
}

/// The graph can be evaluated: some order satisfies [`is_eval_order`].
/// (Equivalently, the dependencies contain no cycle: see
/// [`law_eval_order_iff_acyclic`].)
pub open spec fn has_eval_order<C>(g: Seq<(String, Node<C>)>) -> bool {
    exists|order: Seq<Seq<char>>| is_eval_order(g, order)
}

pub open spec fn str_views(s: Seq<String>) -> Seq<Seq<char>> {
    s.map_values(|x: String| x@)
}

pub open spec fn pair_views(s: Seq<(String, String)>) -> Seq<(Seq<char>, Seq<char>)> {
    s.map_values(|p: (String, String)| (p.0@, p.1@))
}

proof fn lemma_node_pairs_step<C>(name: Seq<char>, params: Seq<(String, ParamValue<C>)>, k: int)
    requires
        0 <= k < params.len(),
    ensures
        node_pairs(name, params.take(k + 1)) == match params[k].1 {
            ParamValue::Hot(h) => node_pairs(name, params.take(k)).push((name, h@)),
            ParamValue::Cold(_) => node_pairs(name, params.take(k)),
        },
{
    assert(params.take(k + 1).drop_last() =~= params.take(k));
}

proof fn lemma_hot_pairs_step<C>(g: Seq<(String, Node<C>)>, i: int)
    requires
        0 <= i < g.len(),
    ensures
        hot_pairs(g.take(i + 1)) == hot_pairs(g.take(i)) + node_pairs(g[i].0@, g[i].1@),
{
    assert(g.take(i + 1).drop_last() =~= g.take(i));
}

/// Collects the hot (dependent, dependency) pairs of the graph.
fn collect_pairs<C>(g: &Vec<(String, Node<C>)>) -> (pairs: Vec<(String, String)>)
    ensures
        pair_views(pairs@) == hot_pairs(g@),
{
    let mut pairs: Vec<(String, String)> = Vec::new();
    let mut i: usize = 0;
    while i < g.len()
        invariant
            0 <= i <= g.len(),
            pair_views(pairs@) == hot_pairs(g@.take(i as int)),
        decreases g.len() - i,
    {
        let name = &g[i].0;
        let params = &g[i].1;
        let ghost base = pairs@;
        let mut k: usize = 0;
        while k < params.len()
            invariant
                0 <= k <= params.len(),
                i < g.len(),
                *name == g@[i as int].0,
                *params == g@[i as int].1,
                pair_views(pairs@) == hot_pairs(g@.take(i as int)) + node_pairs(name@, params@.take(k as int)),
            decreases params.len() - k,
        {
            proof {
                lemma_node_pairs_step(name@, params@, k as int);
            }
            match &params[k].1 {
                ParamValue::Hot(h) => {
                    let ghost before = pairs@;
                    pairs.push((name.clone(), h.clone()));
                    proof {
                        assert(pair_views(pairs@) =~= pair_views(before).push((name@, h@)));
                    }
                },
                ParamValue::Cold(_) => {},
            }
            k = k + 1;
        }
        proof {
            assert(params@.take(params@.len() as int) =~= params@);
            lemma_hot_pairs_step(g@, i as int);
        }
        i = i + 1;
    }
    proof {
        assert(g@.take(g@.len() as int) =~= g@);
    }
    pairs
}

/// The pair names `x` on either side.
pub open spec fn mentions(p: (String, String), x: Seq<char>) -> bool {
    p.0@ == x || p.1@ == x
}

pub open spec fn distinct_views(s: Seq<String>) -> bool {
    forall|i: int, j: int| 0 <= i < s.len() && 0 <= j < s.len() && i != j ==> s[i]@ != s[j]@
}

/// Number of edges `(u, v)` of `e` into `v` whose source `u` is not in `done`.
pub open spec fn in_cnt(e: Seq<(usize, usize)>, v: usize, done: Seq<usize>) -> nat
    decreases e.len(),
{
    if e.len() == 0 {
        0
    } else {
        in_cnt(e.drop_last(), v, done) + if e.last().1 == v && !done.contains(e.last().0) {
            1nat
        } else {
            0nat
        }
    }
}

proof fn lemma_in_cnt_push(e: Seq<(usize, usize)>, x: (usize, usize), v: usize, done: Seq<usize>)
    ensures
        in_cnt(e.push(x), v, done) == in_cnt(e, v, done) + if x.1 == v && !done.contains(x.0) {
            1nat
        } else {
            0nat
        },
{
    assert(e.push(x).drop_last() =~= e);
}

proof fn lemma_in_cnt_le_len(e: Seq<(usize, usize)>, v: usize, done: Seq<usize>)
    ensures
        in_cnt(e, v, done) <= e.len(),
    decreases e.len(),
{
    if e.len() > 0 {
        lemma_in_cnt_le_len(e.drop_last(), v, done);
    }
}

/// Finds `s` among `names`, appending it (with in-degree 0) when absent.
fn intern(names: &mut Vec<String>, deg: &mut Vec<usize>, s: &String) -> (idx: usize)
    requires
        old(names).len() == old(deg).len(),
        distinct_views(old(names)@),
    ensures
        final(names).len() == final(deg).len(),
        distinct_views(final(names)@),
        idx < final(names).len(),
        final(names)@[idx as int]@ == s@,
        str_views(old(names)@).contains(s@) ==> final(names)@ == old(names)@ && final(deg)@ == old(deg)@,
        !str_views(old(names)@).contains(s@) ==> final(names)@ == old(names)@.push(*s) && final(deg)@
            == old(deg)@.push(0),
{
    let mut j: usize = 0;
    while j < names.len()
        invariant
            0 <= j <= names.len(),
            names@ == old(names)@,
            deg@ == old(deg)@,
            names.len() == deg.len(),
            distinct_views(names@),
            forall|t: int| 0 <= t < j ==> names@[t]@ != s@,
        decreases names.len() - j,
    {
        if names[j] == *s {
            proof {
                assert(str_views(names@)[j as int] == s@);
            }
            return j;
        }
        j = j + 1;
    }
    proof {
        assert forall|t: int| 0 <= t < str_views(names@).len() implies str_views(names@)[t] != s@ by {}
    }
    names.push(s.clone());
    deg.push(0);
    proof {
        assert(names@.last()@ == s@);
    }
    names.len() - 1
}

/// Gives each name of the pairs an index, and turns each pair into an edge
/// (dependency index, dependent index), counting each node's in-degree.
fn index_pairs(pairs: &Vec<(String, String)>) -> (r: (Vec<String>, Vec<(usize, usize)>, Vec<usize>))
    ensures
        ({
            let (names, edges, deg) = r;
            &&& distinct_views(names@)
            &&& deg.len() == names.len()
            &&& edges.len() == pairs.len()
            &&& forall|s: int|
                0 <= s < edges.len() ==> {
                    &&& (#[trigger] edges@[s]).0 < names.len()
                    &&& edges@[s].1 < names.len()
                    &&& names@[edges@[s].1 as int]@ == pairs@[s].0@
                    &&& names@[edges@[s].0 as int]@ == pairs@[s].1@
                }
            &&& forall|x: Seq<char>|
                str_views(names@).contains(x) <==> exists|s: int|
                    0 <= s < pairs.len() && mentions(#[trigger] pairs@[s], x)
            &&& forall|v: int| 0 <= v < names.len() ==> deg@[v] == in_cnt(edges@, v as usize, Seq::empty())
        }),
{
    let mut names: Vec<String> = Vec::new();
    let mut edges: Vec<(usize, usize)> = Vec::new();
    let mut deg: Vec<usize> = Vec::new();
    let mut t: usize = 0;
    while t < pairs.len()
        invariant
            0 <= t <= pairs.len(),
            distinct_views(names@),
            deg.len() == names.len(),
            edges.len() == t,
            forall|s: int|
                0 <= s < edges.len() ==> {
                    &&& (#[trigger] edges@[s]).0 < names.len()
                    &&& edges@[s].1 < names.len()
                    &&& names@[edges@[s].1 as int]@ == pairs@[s].0@
                    &&& names@[edges@[s].0 as int]@ == pairs@[s].1@
                },
            forall|x: Seq<char>|
                str_views(names@).contains(x) <==> exists|s: int|
                    0 <= s < t && mentions(#[trigger] pairs@[s], x),
            forall|v: int| 0 <= v < names.len() ==> deg@[v] == in_cnt(edges@, v as usize, Seq::empty()),
        decreases pairs.len() - t,
    {
        let ghost names0 = names@;
        let ghost edges0 = edges@;
        let ghost deg0 = deg@;
        assert(forall|x: Seq<char>|
            str_views(names0).contains(x) <==> exists|s: int|
                0 <= s < t && mentions(#[trigger] pairs@[s], x));
        let hi = intern(&mut names, &mut deg, &pairs[t].1);
        let ghost names1 = names@;
        let ghost deg1 = deg@;
        let ni = intern(&mut names, &mut deg, &pairs[t].0);
        proof {
            // extending names never changes existing in-degree counts
            assert forall|v: int| 0 <= v < names.len() implies deg@[v] == in_cnt(edges@, v as usize, Seq::empty()) by {
                if v >= names0.len() {
                    lemma_in_cnt_zero_beyond(edges@, v as usize, names0.len());
                }
            }
            lemma_in_cnt_le_len(edges@, ni, Seq::empty());
        }
        edges.push((hi, ni));
        let d = deg[ni];
        deg.set(ni, d + 1);
        proof {
            assert forall|v: int| 0 <= v < names.len() implies deg@[v] == in_cnt(edges@, v as usize, Seq::empty()) by {
                lemma_in_cnt_push(edges0, (hi, ni), v as usize, Seq::empty());
            }
            assert forall|s: int| 0 <= s < edges.len() implies {
                &&& (#[trigger] edges@[s]).0 < names.len()
                &&& edges@[s].1 < names.len()
                &&& names@[edges@[s].1 as int]@ == pairs@[s].0@
                &&& names@[edges@[s].0 as int]@ == pairs@[s].1@
            } by {
                if s < t {
                    assert(edges@[s] == edges0[s]);
                    assert(names@[edges0[s].1 as int] == names0[edges0[s].1 as int]);
                    assert(names@[edges0[s].0 as int] == names0[edges0[s].0 as int]);
                }
            }
            assert forall|x: Seq<char>|
                str_views(names@).contains(x) <==> (str_views(names0).contains(x) || mentions(
                    pairs@[t as int],
                    x,
                )) by {
                lemma_views_push_contains(names0, pairs@[t as int].1, x);
                lemma_views_push_contains(names1, pairs@[t as int].0, x);
            }
            assert forall|x: Seq<char>|
                str_views(names@).contains(x) <==> exists|s: int|
                    0 <= s < t + 1 && mentions(#[trigger] pairs@[s], x) by {
                lemma_mentions_step(pairs@, t as int, x);
                assert(str_views(names@).contains(x) <==> (str_views(names0).contains(x) || mentions(
                    pairs@[t as int],
                    x,
                )));
                assert(str_views(names0).contains(x) <==> exists|s: int|
                    0 <= s < t && mentions(#[trigger] pairs@[s], x));
            }
        }
        t = t + 1;
    }
    (names, edges, deg)
}

proof fn lemma_views_push_contains(names: Seq<String>, y: String, x: Seq<char>)
    ensures
        str_views(names.push(y)).contains(x) <==> (str_views(names).contains(x) || y@ == x),
{
    let a = str_views(names);
    assert(str_views(names.push(y)) =~= a.push(y@));
    if a.push(y@).contains(x) {
        let j = choose|j: int| 0 <= j < a.push(y@).len() && a.push(y@)[j] == x;
        if j < a.len() {
            assert(a[j] == x);
        }
    }
    if a.contains(x) {
        let j = choose|j: int| 0 <= j < a.len() && a[j] == x;
        assert(a.push(y@)[j] == x);
    }
    if y@ == x {
        assert(a.push(y@)[a.len() as int] == x);
    }
}

proof fn lemma_mentions_step(pairs: Seq<(String, String)>, t: int, x: Seq<char>)
    requires
        0 <= t < pairs.len(),
    ensures
        (exists|s: int| 0 <= s < t + 1 && mentions(#[trigger] pairs[s], x)) <==> ((exists|s: int|
            0 <= s < t && mentions(#[trigger] pairs[s], x)) || mentions(pairs[t], x)),
{
    if exists|s: int| 0 <= s < t + 1 && mentions(#[trigger] pairs[s], x) {
        let s = choose|s: int| 0 <= s < t + 1 && mentions(#[trigger] pairs[s], x);
        if s < t {
            assert(0 <= s < t && mentions(pairs[s], x));
        }
    }
    if exists|s: int| 0 <= s < t && mentions(#[trigger] pairs[s], x) {
        let s = choose|s: int| 0 <= s < t && mentions(#[trigger] pairs[s], x);
        assert(0 <= s < t + 1 && mentions(pairs[s], x));
    }
    if mentions(pairs[t], x) {
        assert(0 <= t < t + 1 && mentions(pairs[t], x));
    }
}

proof fn lemma_in_cnt_zero_beyond(e: Seq<(usize, usize)>, v: usize, n: nat)
    requires
        forall|s: int| 0 <= s < e.len() ==> (#[trigger] e[s]).1 < n,
        v >= n,
    ensures
        in_cnt(e, v, Seq::empty()) == 0,
    decreases e.len(),
{
    if e.len() > 0 {
        lemma_in_cnt_zero_beyond(e.drop_last(), v, n);
    }
}

/// Number of occurrences of the edge `(u, v)` in `e`.
pub open spec fn cnt_edge(e: Seq<(usize, usize)>, u: usize, v: usize) -> nat
    decreases e.len(),
{
    if e.len() == 0 {
        0
    } else {
        cnt_edge(e.drop_last(), u, v) + if e.last() == (u, v) {
            1nat
        } else {
            0nat
        }
    }
}

proof fn lemma_cnt_edge_take(e: Seq<(usize, usize)>, j: int, u: usize, v: usize)
    requires
        0 <= j < e.len(),
    ensures
        cnt_edge(e.take(j + 1), u, v) == cnt_edge(e.take(j), u, v) + if e[j] == (u, v) {
            1nat
        } else {
            0nat
        },
{
    assert(e.take(j + 1).drop_last() =~= e.take(j));
}

proof fn lemma_cnt_edge_take_le(e: Seq<(usize, usize)>, j: int, u: usize, v: usize)
    requires
        0 <= j <= e.len(),
    ensures
        cnt_edge(e.take(j), u, v) <= cnt_edge(e, u, v),
    decreases e.len() - j,
{
    if j < e.len() {
        lemma_cnt_edge_take(e, j, u, v);
        lemma_cnt_edge_take_le(e, j + 1, u, v);
    } else {
        assert(e.take(j) =~= e);
    }
}

proof fn lemma_cnt_edge_contains(e: Seq<(usize, usize)>, u: usize, v: usize)
    requires
        e.contains((u, v)),
    ensures
        cnt_edge(e, u, v) > 0,
    decreases e.len(),
{
    if e.last() != (u, v) {
        let k = choose|k: int| 0 <= k < e.len() && e[k] == (u, v);
        assert(e.drop_last()[k] == (u, v));
        lemma_cnt_edge_contains(e.drop_last(), u, v);
    }
}

proof fn lemma_in_cnt_ge_two(e: Seq<(usize, usize)>, v: usize, d: Seq<usize>, u: usize, w: usize)
    requires
        !d.contains(u),
        !d.contains(w),
        u != w,
    ensures
        in_cnt(e, v, d) >= cnt_edge(e, u, v) + cnt_edge(e, w, v),
    decreases e.len(),
{
    if e.len() > 0 {
        lemma_in_cnt_ge_two(e.drop_last(), v, d, u, w);
    }
}

proof fn lemma_in_cnt_ge(e: Seq<(usize, usize)>, v: usize, d: Seq<usize>, u: usize)
    requires
        !d.contains(u),
    ensures
        in_cnt(e, v, d) >= cnt_edge(e, u, v),
    decreases e.len(),
{
    if e.len() > 0 {
        lemma_in_cnt_ge(e.drop_last(), v, d, u);
    }
}

proof fn lemma_in_cnt_done_push(e: Seq<(usize, usize)>, v: usize, d: Seq<usize>, u: usize)
    requires
        !d.contains(u),
    ensures
        in_cnt(e, v, d.push(u)) + cnt_edge(e, u, v) == in_cnt(e, v, d),
    decreases e.len(),
{
    if e.len() > 0 {
        lemma_in_cnt_done_push(e.drop_last(), v, d, u);
        let x = e.last();
        if x.0 == u {
            assert(d.push(u)[d.len() as int] == u);
            assert(d.push(u).contains(u));
        } else {
            if d.push(u).contains(x.0) {
                let k = choose|k: int| 0 <= k < d.push(u).len() && d.push(u)[k] == x.0;
                assert(d[k] == x.0);
            }
            if d.contains(x.0) {
                let k = choose|k: int| 0 <= k < d.len() && d[k] == x.0;
                assert(d.push(u)[k] == x.0);
            }
        }
    }
}

proof fn lemma_in_cnt_pos(e: Seq<(usize, usize)>, v: usize, d: Seq<usize>) -> (u: usize)
    requires
        in_cnt(e, v, d) > 0,
    ensures
        !d.contains(u),
        e.contains((u, v)),
    decreases e.len(),
{
    let x = e.last();
    if x.1 == v && !d.contains(x.0) {
        assert(e[e.len() - 1] == (x.0, v));
        x.0
    } else {
        let u = lemma_in_cnt_pos(e.drop_last(), v, d);
        let k = choose|k: int| 0 <= k < e.drop_last().len() && e.drop_last()[k] == (u, v);
        assert(e[k] == (u, v));
        u
    }
}

/// A sequence of distinct values below `m` has at most `m` elements.
proof fn lemma_distinct_bounded_len(q: Seq<usize>, m: nat)
    requires
        q.no_duplicates(),
        forall|p: int| 0 <= p < q.len() ==> q[p] < m,
    ensures
        q.len() <= m,
    decreases m,
{
    if m == 0 {
        if q.len() > 0 {
            assert(q[0] < 0);
        }
    } else if q.contains((m - 1) as usize) {
        let i = choose|i: int| 0 <= i < q.len() && q[i] == (m - 1) as usize;
        let r = q.remove(i);
        assert forall|p: int| 0 <= p < r.len() implies r[p] < m - 1 by {
            if p < i {
                assert(r[p] == q[p]);
            } else {
                assert(r[p] == q[p + 1]);
            }
        }
        assert(r.no_duplicates()) by {
            assert forall|a: int, b: int| 0 <= a < r.len() && 0 <= b < r.len() && a != b implies r[a] != r[b] by {
                let qa = if a < i { a } else { a + 1 };
                let qb = if b < i { b } else { b + 1 };
                assert(r[a] == q[qa] && r[b] == q[qb]);
            }
        }
        lemma_distinct_bounded_len(r, (m - 1) as nat);
    } else {
        assert forall|p: int| 0 <= p < q.len() implies q[p] < m - 1 by {
            if q[p] == (m - 1) as usize {
                assert(q.contains(q[p]));
            }
        }
        lemma_distinct_bounded_len(q, (m - 1) as nat);
    }
}

/// A sequence of distinct values below `n` that misses one of them has fewer
/// than `n` elements.
proof fn lemma_distinct_missing_len(q: Seq<usize>, n: nat, v: usize)
    requires
        q.no_duplicates(),
        forall|p: int| 0 <= p < q.len() ==> q[p] < n,
        v < n,
        !q.contains(v),
    ensures
        q.len() < n,
{
    // map v to the top slot: every element differs from v, so squeeze the
    // values above v down by one
    let r = q.map_values(|x: usize| if x > v { (x - 1) as usize } else { x });
    assert forall|p: int| 0 <= p < r.len() implies r[p] < n - 1 by {
        assert(q[p] != v) by {
            if q[p] == v {
                assert(q.contains(v));
            }
        }
    }
    assert(r.no_duplicates()) by {
        assert forall|a: int, b: int| 0 <= a < r.len() && 0 <= b < r.len() && a != b implies r[a] != r[b] by {
            assert(q[a] != q[b]);
            if q[a] == v {
                assert(q.contains(v));
            }
            if q[b] == v {
                assert(q.contains(v));
            }
        }
    }
    lemma_distinct_bounded_len(r, (n - 1) as nat);
}

/// Kahn's algorithm over nodes `0..n` and the edge list `edges`, starting
/// from the in-degrees `deg`. Returns the processing queue: the nodes that
/// could be ordered, each after all of its predecessors.
fn kahn(n: usize, edges: &Vec<(usize, usize)>, deg: Vec<usize>) -> (queue: Vec<usize>)
    requires
        deg.len() == n,
        forall|s: int| 0 <= s < edges.len() ==> (#[trigger] edges@[s]).0 < n && edges@[s].1 < n,
        forall|v: int| 0 <= v < n ==> deg@[v] == in_cnt(edges@, v as usize, Seq::empty()),
    ensures
        queue@.no_duplicates(),
        forall|p: int| 0 <= p < queue.len() ==> queue@[p] < n,
        forall|p: int, u: usize|
            0 <= p < queue.len() && #[trigger] edges@.contains((u, queue@[p])) ==> exists|q: int|
                0 <= q < p && queue@[q] == u,
        forall|v: usize|
            v < n && !queue@.contains(v) ==> exists|u: usize|
                !queue@.contains(u) && #[trigger] edges@.contains((u, v)),
{
    let mut deg = deg;
    let mut queue: Vec<usize> = Vec::new();
    let mut v: usize = 0;
    while v < n
        invariant
            0 <= v <= n,
            deg.len() == n,
            forall|w: int| 0 <= w < n ==> deg@[w] == in_cnt(edges@, w as usize, Seq::empty()),
            queue@.no_duplicates(),
            forall|p: int| 0 <= p < queue.len() ==> queue@[p] < v,
            forall|w: usize| w < v ==> (queue@.contains(w) <==> deg@[w as int] == 0),
        decreases n - v,
    {
        if deg[v] == 0 {
            let ghost q0 = queue@;
            queue.push(v);
            proof {
                assert forall|w: usize| w < v + 1 implies (queue@.contains(w) <==> deg@[w as int] == 0) by {
                    if w < v {
                        if queue@.contains(w) {
                            let k = choose|k: int| 0 <= k < queue@.len() && queue@[k] == w;
                            assert(k < q0.len());
                            assert(q0[k] == w);
                        }
                        if q0.contains(w) {
                            let k = choose|k: int| 0 <= k < q0.len() && q0[k] == w;
                            assert(queue@[k] == w);
                        }
                    } else {
                        assert(queue@[q0.len() as int] == w);
                    }
                }
            }
        } else {
            proof {
                assert(!queue@.contains(v)) by {
                    if queue@.contains(v) {
                        let k = choose|k: int| 0 <= k < queue@.len() && queue@[k] == v;
                    }
                }
            }
        }
        v = v + 1;
    }
    proof {
        assert forall|p: int, u: usize|
            0 <= p < queue.len() && #[trigger] edges@.contains((u, queue@[p])) implies exists|q: int|
                0 <= q < p && queue@[q] == u by {
            let w = queue@[p];
            assert(queue@.contains(w));
            lemma_cnt_edge_contains(edges@, u, w);
            lemma_in_cnt_ge(edges@, w, Seq::empty(), u);
        }
        assert(queue@.take(0) =~= Seq::<usize>::empty());
    }
    let mut h: usize = 0;
    while h < queue.len()
        invariant
            0 <= h <= queue.len(),
            deg.len() == n,
            forall|s: int| 0 <= s < edges.len() ==> (#[trigger] edges@[s]).0 < n && edges@[s].1 < n,
            queue@.no_duplicates(),
            forall|p: int| 0 <= p < queue.len() ==> queue@[p] < n,
            forall|w: int| 0 <= w < n ==> deg@[w] == in_cnt(edges@, w as usize, queue@.take(h as int)),
            forall|w: usize| w < n ==> (queue@.contains(w) <==> deg@[w as int] == 0),
            forall|p: int, u: usize|
                0 <= p < queue.len() && #[trigger] edges@.contains((u, queue@[p])) ==> exists|q: int|
                    0 <= q < p && queue@[q] == u,
        decreases n - h,
    {
        proof {
            lemma_distinct_bounded_len(queue@, n as nat);
        }
        let u = queue[h];
        let ghost done_old = queue@.take(h as int);
        proof {
            assert(!done_old.contains(u)) by {
                if done_old.contains(u) {
                    let k = choose|k: int| 0 <= k < done_old.len() && done_old[k] == u;
                    assert(queue@[k] == queue@[h as int]);
                }
            }
        }
        h = h + 1;
        let ghost q_mid = queue@;
        let mut j: usize = 0;
        while j < edges.len()
            invariant
                0 <= j <= edges.len(),
                1 <= h <= queue.len(),
                deg.len() == n,
                u < n,
                forall|s: int| 0 <= s < edges.len() ==> (#[trigger] edges@[s]).0 < n && edges@[s].1 < n,
                queue@.no_duplicates(),
                forall|p: int| 0 <= p < queue.len() ==> queue@[p] < n,
                queue@.take(h as int) == q_mid.take(h as int),
                q_mid.take(h as int) == done_old.push(u),
                !done_old.contains(u),
                forall|w: int|
                    0 <= w < n ==> deg@[w] + cnt_edge(edges@.take(j as int), u, w as usize) == in_cnt(
                        edges@,
                        w as usize,
                        done_old,
                    ),
                forall|w: usize| w < n ==> (queue@.contains(w) <==> deg@[w as int] == 0),
                forall|p: int, x: usize|
                    0 <= p < queue.len() && #[trigger] edges@.contains((x, queue@[p])) ==> exists|q: int|
                        0 <= q < p && queue@[q] == x,
            decreases edges.len() - j,
        {
            let (a, b) = edges[j];
            proof {
                assert forall|w: int| 0 <= w < n implies #[trigger] cnt_edge(edges@.take(j as int + 1), u, w as usize)
                    == cnt_edge(edges@.take(j as int), u, w as usize) + if edges@[j as int] == (u, w as usize) {
                    1nat
                } else {
                    0nat
                } by {
                    lemma_cnt_edge_take(edges@, j as int, u, w as usize);
                }
            }
            if a == u {
                proof {
                    lemma_cnt_edge_take_le(edges@, j as int + 1, u, b);
                    lemma_in_cnt_ge(edges@, b, done_old, u);
                }
                let d = deg[b];
                let ghost q0 = queue@;
                proof {
                    assert(!queue@.contains(b));
                }
                deg.set(b, d - 1);
                if d - 1 == 0 {
                    queue.push(b);
                    proof {
                        assert(queue@.take(h as int) =~= q0.take(h as int));
                        assert(queue@.no_duplicates()) by {
                            assert forall|x: int, y: int|
                                0 <= x < queue@.len() && 0 <= y < queue@.len() && x != y implies queue@[x]
                                != queue@[y] by {
                                if x == q0.len() && y < q0.len() {
                                    assert(q0.contains(q0[y]));
                                } else if y == q0.len() && x < q0.len() {
                                    assert(q0.contains(q0[x]));
                                }
                            }
                        }
                        assert forall|w: usize| w < n implies (queue@.contains(w) <==> deg@[w as int] == 0) by {
                            if queue@.contains(w) {
                                let k = choose|k: int| 0 <= k < queue@.len() && queue@[k] == w;
                                if k < q0.len() {
                                    assert(q0[k] == w);
                                }
                            }
                            if w != b && q0.contains(w) {
                                let k = choose|k: int| 0 <= k < q0.len() && q0[k] == w;
                                assert(queue@[k] == w);
                            }
                            if w == b {
                                assert(queue@[q0.len() as int] == b);
                            }
                        }
                        assert forall|p: int, x: usize|
                            0 <= p < queue.len() && #[trigger] edges@.contains((x, queue@[p])) implies exists|q: int|
                                0 <= q < p && queue@[q] == x by {
                            if p < q0.len() {
                                assert(queue@[p] == q0[p]);
                                let q = choose|q: int| 0 <= q < p && q0[q] == x;
                                assert(queue@[q] == x);
                            } else {
                                // every predecessor of b is already processed
                                if x != u && !done_old.contains(x) {
                                    lemma_cnt_edge_contains(edges@, x, b);
                                    lemma_in_cnt_ge_two(edges@, b, done_old, u, x);
                                    assert(false);
                                }
                                if x == u {
                                    assert(q_mid.take(h as int)[h - 1] == u);
                                    assert(queue@[h - 1] == u);
                                } else {
                                    let k = choose|k: int| 0 <= k < done_old.len() && done_old[k] == x;
                                    assert(q_mid.take(h as int)[k] == x);
                                    assert(queue@.take(h as int)[k] == x);
                                    assert(queue@[k] == x);
                                }
                            }
                        }
                    }
                } else {
                    proof {
                        assert forall|w: usize| w < n implies (queue@.contains(w) <==> deg@[w as int] == 0) by {}
                    }
                }
            }
            j = j + 1;
        }
        proof {
            assert(edges@.take(edges.len() as int) =~= edges@);
            assert forall|w: int| 0 <= w < n implies deg@[w] == in_cnt(edges@, w as usize, queue@.take(h as int)) by {
                lemma_in_cnt_done_push(edges@, w as usize, done_old, u);
            }
        }
    }
    proof {
        assert(queue@.take(h as int) =~= queue@);
        assert forall|v: usize|
            v < n && !queue@.contains(v) implies exists|u: usize|
                !queue@.contains(u) && #[trigger] edges@.contains((u, v)) by {
            let u = lemma_in_cnt_pos(edges@, v, queue@);
        }
    }
    queue
}

/// The position of a name among distinct names.
proof fn lemma_distinct_index(names: Seq<String>, a: int, b: int)
    requires
        distinct_views(names),
        0 <= a < names.len(),
        0 <= b < names.len(),
        names[a]@ == names[b]@,
    ensures
        a == b,
{
}

/// The order in which the nodes of the graph `g` (entries of node name and
/// parameters) can be evaluated so that every node comes after the nodes its
/// hot parameters refer to: `Some` of such an order when one exists, `None`
/// when the references contain a cycle.
pub fn eval_order<C>(g: &Vec<(String, Node<C>)>) -> (r: Option<Vec<String>>)
    ensures
        r matches Some(o) ==> is_eval_order(g@, str_views(o@)),
        r is None ==> !has_eval_order(g@),
        r is None <==> has_cycle(g@),
{
    proof {
        law_eval_order_iff_acyclic(g@);
    }
    let pairs = collect_pairs(g);
    let (names, edges, deg) = index_pairs(&pairs);
    let n = names.len();
    let queue = kahn(n, &edges, deg);
    let ghost hp = hot_pairs(g@);
    proof {
        // edges between indices are exactly the hot pairs between names
        assert forall|a: usize, b: usize|
            a < n && b < n implies (#[trigger] edges@.contains((a, b)) <==> hp.contains(
                (names@[b as int]@, names@[a as int]@),
            )) by {
            if edges@.contains((a, b)) {
                let s = choose|s: int| 0 <= s < edges@.len() && edges@[s] == (a, b);
                assert(pair_views(pairs@)[s] == hp[s]);
            }
            if hp.contains((names@[b as int]@, names@[a as int]@)) {
                let s = choose|s: int| 0 <= s < hp.len() && hp[s] == (names@[b as int]@, names@[a as int]@);
                assert(pair_views(pairs@)[s] == hp[s]);
                let e = edges@[s];
                lemma_distinct_index(names@, e.0 as int, a as int);
                lemma_distinct_index(names@, e.1 as int, b as int);
                assert(edges@[s] == (a, b));
            }
        }
        // a name is in the graph exactly when it was given an index
        assert forall|x: Seq<char>| in_graph(g@, x) <==> #[trigger] str_views(names@).contains(x) by {
            if in_graph(g@, x) {
                let y = choose|y: Seq<char>|
                    #![trigger depends_on(g@, x, y)]
                    #![trigger depends_on(g@, y, x)]
                    depends_on(g@, x, y) || depends_on(g@, y, x);
                if depends_on(g@, x, y) {
                    let s = choose|s: int| 0 <= s < hp.len() && hp[s] == (x, y);
                    assert(pair_views(pairs@)[s] == hp[s]);
                    assert(mentions(pairs@[s], x));
                } else {
                    let s = choose|s: int| 0 <= s < hp.len() && hp[s] == (y, x);
                    assert(pair_views(pairs@)[s] == hp[s]);
                    assert(mentions(pairs@[s], x));
                }
            }
            if str_views(names@).contains(x) {
                let s = choose|s: int| 0 <= s < pairs.len() && mentions(#[trigger] pairs@[s], x);
                assert(pair_views(pairs@)[s] == hp[s]);
                assert(hp.contains(hp[s]));
                if pairs@[s].0@ == x {
                    assert(depends_on(g@, x, pairs@[s].1@));
                } else {
                    assert(depends_on(g@, pairs@[s].0@, x));
                }
            }
        }
    }
    if queue.len() == n {
        let mut order: Vec<String> = Vec::new();
        let mut p: usize = 0;
        while p < n
            invariant
                0 <= p <= n,
                queue.len() == n,
                names.len() == n,
                forall|k: int| 0 <= k < n ==> queue@[k] < n,
                order.len() == p,
                forall|k: int| 0 <= k < p ==> (#[trigger] order@[k])@ == names@[queue@[k] as int]@,
            decreases n - p,
        {
            order.push(names[queue[p]].clone());
            p = p + 1;
        }
        proof {
            let ov = str_views(order@);
            // the queue holds every index
            assert forall|v: usize| v < n implies queue@.contains(v) by {
                if !queue@.contains(v) {
                    lemma_distinct_missing_len(queue@, n as nat, v);
                }
            }
            assert(ov.no_duplicates()) by {
                assert forall|x: int, y: int| 0 <= x < ov.len() && 0 <= y < ov.len() && x != y implies ov[x] != ov[y] by {
                    assert(order@[x]@ == names@[queue@[x] as int]@);
                    assert(order@[y]@ == names@[queue@[y] as int]@);
                    if ov[x] == ov[y] {
                        lemma_distinct_index(names@, queue@[x] as int, queue@[y] as int);
                    }
                }
            }
            assert forall|x: Seq<char>| ov.contains(x) <==> in_graph(g@, x) by {
                if ov.contains(x) {
                    let k = choose|k: int| 0 <= k < ov.len() && ov[k] == x;
                    assert(order@[k]@ == names@[queue@[k] as int]@);
                    assert(str_views(names@)[queue@[k] as int] == x);
                }
                if str_views(names@).contains(x) {
                    let j = choose|j: int| 0 <= j < str_views(names@).len() && str_views(names@)[j] == x;
                    assert(queue@.contains(j as usize));
                    let k = choose|k: int| 0 <= k < queue@.len() && queue@[k] == j as usize;
                    assert(order@[k]@ == names@[queue@[k] as int]@);
                    assert(ov[k] == x);
                }
            }
            assert forall|i: int, j: int|
                0 <= i < ov.len() && 0 <= j < ov.len() && depends_on(g@, ov[j], ov[i]) implies i < j by {
                assert(order@[i]@ == names@[queue@[i] as int]@);
                assert(order@[j]@ == names@[queue@[j] as int]@);
                assert(edges@.contains((queue@[i], queue@[j])));
                let q = choose|q: int| 0 <= q < j && queue@[q] == queue@[i];
                assert(q == i);
            }
            assert(is_eval_order(g@, ov));
        }
        Some(order)
    } else {
        proof {
            lemma_distinct_bounded_len(queue@, n as nat);
            if forall|v: usize| v < n ==> queue@.contains(v) {
                lemma_all_present_len(queue@, n as nat);
            }
            assert(exists|v: usize| v < n && !queue@.contains(v));
            assert forall|o: Seq<Seq<char>>| !is_eval_order(g@, o) by {
                lemma_unordered_blocks(g@, o, names@, edges@, queue@, n as nat);
            }
        }
        None
    }
}

/// A sequence of distinct values below `n` that holds each of them has `n`
/// elements.
proof fn lemma_all_present_len(q: Seq<usize>, n: nat)
    requires
        q.no_duplicates(),
        forall|p: int| 0 <= p < q.len() ==> q[p] < n,
        forall|v: usize| v < n ==> q.contains(v),
        n <= usize::MAX,
    ensures
        q.len() >= n,
    decreases n,
{
    if n > 0 {
        assert(q.contains((n - 1) as usize));
        let i = choose|i: int| 0 <= i < q.len() && q[i] == (n - 1) as usize;
        let r = q.remove(i);
        assert forall|p: int| 0 <= p < r.len() implies r[p] < n - 1 by {
            if p < i {
                assert(r[p] == q[p]);
                assert(q[p] != q[i]);
            } else {
                assert(r[p] == q[p + 1]);
                assert(q[p + 1] != q[i]);
            }
        }
        assert(r.no_duplicates()) by {
            assert forall|a: int, b: int| 0 <= a < r.len() && 0 <= b < r.len() && a != b implies r[a] != r[b] by {
                let qa = if a < i { a } else { a + 1 };
                let qb = if b < i { b } else { b + 1 };
                assert(r[a] == q[qa] && r[b] == q[qb]);
            }
        }
        assert forall|v: usize| v < n - 1 implies r.contains(v) by {
            assert(q.contains(v));
            let k = choose|k: int| 0 <= k < q.len() && q[k] == v;
            assert(k != i);
            if k < i {
                assert(r[k] == q[k]);
                assert(r.contains(v));
            } else {
                assert(r[k - 1] == q[k]);
                assert(r.contains(v));
            }
        }
        lemma_all_present_len(r, (n - 1) as nat);
    }
}

/// When some indexed names could not be queued, and each of those has a
/// dependency that could not be queued either, no order satisfies
/// [`is_eval_order`].
proof fn lemma_unordered_blocks<C>(
    g: Seq<(String, Node<C>)>,
    o: Seq<Seq<char>>,
    names: Seq<String>,
    edges: Seq<(usize, usize)>,
    queue: Seq<usize>,
    n: nat,
)
    requires
        names.len() == n,
        exists|v: usize| v < n && !queue.contains(v),
        forall|v: usize|
            v < n && !queue.contains(v) ==> exists|u: usize| !queue.contains(u) && #[trigger] edges.contains((u, v)),
        forall|s: int| 0 <= s < edges.len() ==> (#[trigger] edges[s]).0 < n && edges[s].1 < n,
        forall|a: usize, b: usize|
            a < n && b < n ==> (#[trigger] edges.contains((a, b)) <==> hot_pairs(g).contains(
                (names[b as int]@, names[a as int]@),
            )),
        forall|x: Seq<char>| in_graph(g, x) <==> #[trigger] str_views(names).contains(x),
    ensures
        !is_eval_order(g, o),
{
    let blocked = |x: Seq<char>| exists|v: usize| v < n && !queue.contains(v) && #[trigger] names[v as int]@ == x;
    assert forall|x: Seq<char>| #[trigger] blocked(x) implies exists|y: Seq<char>| blocked(y) && #[trigger] depends_on(g, x, y) by {
        let v = choose|v: usize| v < n && !queue.contains(v) && #[trigger] names[v as int]@ == x;
        let u = choose|u: usize| !queue.contains(u) && #[trigger] edges.contains((u, v));
        let s = choose|s: int| 0 <= s < edges.len() && edges[s] == (u, v);
        assert(edges[s].0 < n);
        assert(depends_on(g, x, names[u as int]@));
        assert(blocked(names[u as int]@));
    }
    if is_eval_order(g, o) {
        let v = choose|v: usize| v < n && !queue.contains(v);
        assert(str_views(names)[v as int] == names[v as int]@);
        assert(str_views(names).contains(names[v as int]@));
        assert(in_graph(g, names[v as int]@));
        assert(o.contains(names[v as int]@));
        let k = choose|k: int| 0 <= k < o.len() && o[k] == names[v as int]@;
        lemma_blocked_not_in_order(g, o, blocked, k as nat);
        assert(blocked(o[k]));
    }
}

/// In an evaluation order, no position holds a name from a set in which each
/// name depends on another name of the set.
proof fn lemma_blocked_not_in_order<C>(
    g: Seq<(String, Node<C>)>,
    o: Seq<Seq<char>>,
    blocked: spec_fn(Seq<char>) -> bool,
    k: nat,
)
    requires
        is_eval_order(g, o),
        k < o.len(),
        forall|x: Seq<char>| #[trigger] blocked(x) ==> exists|y: Seq<char>| blocked(y) && #[trigger] depends_on(g, x, y),
    ensures
        !blocked(o[k as int]),
    decreases k,
{
    if blocked(o[k as int]) {
        let x = o[k as int];
        let y = choose|y: Seq<char>| blocked(y) && #[trigger] depends_on(g, x, y);
        assert(in_graph(g, y));
        assert(o.contains(y));
        let m = choose|m: int| 0 <= m < o.len() && o[m] == y;
        assert(depends_on(g, o[k as int], o[m]));
        lemma_blocked_not_in_order(g, o, blocked, m as nat);
    }
}

/// The names of the entries of a graph.
pub open spec fn entry_names<C>(g: Seq<(String, Node<C>)>) -> Seq<Seq<char>> {
    g.map_values(|e: (String, Node<C>)| e.0@)
}

/// No two entries share a name.
pub open spec fn unique_names<C>(g: Seq<(String, Node<C>)>) -> bool {
    entry_names(g).no_duplicates()
}

/// The node stored under `name`, if any (the first entry with that name).
pub open spec fn lookup<C>(g: Seq<(String, Node<C>)>, name: Seq<char>) -> Option<Node<C>>
    decreases g.len(),
{
    if g.len() == 0 {
        None
    } else if g[0].0@ == name {
        Some(g[0].1)
    } else {
        lookup(g.drop_first(), name)
    }
}

/// The position of the entry called `name`, if any.
pub fn find_entry<C>(g: &Vec<(String, Node<C>)>, name: &str) -> (r: Option<usize>)
    ensures
        r matches Some(i) ==> i < g.len() && g@[i as int].0@ == name@ && lookup(g@, name@) == Some(
            g@[i as int].1,
        ),
        r is None ==> lookup(g@, name@) is None && !entry_names(g@).contains(name@),
{
    let mut i: usize = 0;
    proof {
        assert(g@.skip(0) =~= g@);
    }
    while i < g.len()
        invariant
            0 <= i <= g.len(),
            lookup(g@, name@) == lookup(g@.skip(i as int), name@),
            forall|k: int| 0 <= k < i ==> g@[k].0@ != name@,
        decreases g.len() - i,
    {
        let ghost rest = g@.skip(i as int);
        proof {
            assert(rest.drop_first() =~= g@.skip(i as int + 1));
            assert(rest[0] == g@[i as int]);
        }
        if str_eq(g[i].0.as_str(), name) {
            return Some(i);
        }
        i = i + 1;
    }
    proof {
        assert(g@.skip(i as int) =~= Seq::<(String, Node<C>)>::empty());
        assert forall|k: int| 0 <= k < entry_names(g@).len() implies entry_names(g@)[k] != name@ by {
            assert(entry_names(g@)[k] == g@[k].0@);
        }
    }
    None
}

proof fn lemma_lookup_unique<C>(g: Seq<(String, Node<C>)>, i: int)
    requires
        unique_names(g),
        0 <= i < g.len(),
    ensures
        lookup(g, g[i].0@) == Some(g[i].1),
    decreases i,
{
    if i > 0 {
        assert(entry_names(g)[0] == g[0].0@);
        assert(entry_names(g)[i] == g[i].0@);
        assert(g[0].0@ != g[i].0@);
        assert(g.drop_first()[i - 1] == g[i]);
        assert(unique_names(g.drop_first())) by {
            assert(entry_names(g.drop_first()) =~= entry_names(g).drop_first());
        }
        lemma_lookup_unique(g.drop_first(), i - 1);
    }
}

proof fn lemma_lookup_absent<C>(g: Seq<(String, Node<C>)>, name: Seq<char>)
    requires
        !entry_names(g).contains(name),
    ensures
        lookup(g, name) is None,
    decreases g.len(),
{
    if g.len() > 0 {
        assert(entry_names(g)[0] == g[0].0@);
        assert(entry_names(g.drop_first()) =~= entry_names(g).drop_first());
        if entry_names(g.drop_first()).contains(name) {
            let k = choose|k: int| 0 <= k < entry_names(g.drop_first()).len() && entry_names(g.drop_first())[k] == name;
            assert(entry_names(g)[k + 1] == name);
        }
        lemma_lookup_absent(g.drop_first(), name);
    }
}

/// Stores `node` under `name`: replaces the entry with that name, or appends
/// a new one.
pub fn insert_entry<C>(g: &mut Vec<(String, Node<C>)>, name: &str, node: Node<C>)
    requires
        unique_names(old(g)@),
    ensures
        unique_names(final(g)@),
        lookup(final(g)@, name@) == Some(node),
        forall|k: Seq<char>| k != name@ ==> lookup(final(g)@, k) == lookup(old(g)@, k),
        forall|k: Seq<char>|
            entry_names(final(g)@).contains(k) <==> (entry_names(old(g)@).contains(k) || k == name@),
{
    let ghost g0 = g@;
    let found = find_entry(g, name);
    let key = name.to_owned();
    match found {
        Some(i) => {
            g.set(i, (key, node));
            proof {
                assert(entry_names(g@) =~= entry_names(g0).update(i as int, name@));
                assert(entry_names(g0)[i as int] == name@);
                assert(entry_names(g@) =~= entry_names(g0));
                lemma_lookup_unique(g@, i as int);
                assert forall|k: Seq<char>| k != name@ implies lookup(g@, k) == lookup(g0, k) by {
                    lemma_lookup_other_update(g0, i as int, (key, node), k);
                }
            }
        },
        None => {
            g.push((key, node));
            proof {
                assert(entry_names(g@) =~= entry_names(g0).push(name@));
                assert(unique_names(g@)) by {
                    assert forall|a: int, b: int|
                        0 <= a < entry_names(g@).len() && 0 <= b < entry_names(g@).len() && a != b implies
                        entry_names(g@)[a] != entry_names(g@)[b] by {
                        if a == g0.len() {
                            assert(entry_names(g0).contains(entry_names(g@)[b]));
                        } else if b == g0.len() {
                            assert(entry_names(g0).contains(entry_names(g@)[a]));
                        }
                    }
                }
                lemma_lookup_unique(g@, g0.len() as int);
                assert forall|k: Seq<char>| k != name@ implies lookup(g@, k) == lookup(g0, k) by {
                    lemma_lookup_push_other(g0, (key, node), k);
                }
                assert forall|k: Seq<char>|
                    entry_names(g@).contains(k) <==> (entry_names(g0).contains(k) || k == name@) by {
                    if entry_names(g@).contains(k) {
                        let j = choose|j: int| 0 <= j < entry_names(g@).len() && entry_names(g@)[j] == k;
                        if j < g0.len() {
                            assert(entry_names(g0)[j] == k);
                        }
                    }
                    if entry_names(g0).contains(k) {
                        let j = choose|j: int| 0 <= j < entry_names(g0).len() && entry_names(g0)[j] == k;
                        assert(entry_names(g@)[j] == k);
                    }
                    if k == name@ {
                        assert(entry_names(g@)[g0.len() as int] == k);
                    }
                }
            }
        },
    }
}

proof fn lemma_lookup_other_update<C>(g: Seq<(String, Node<C>)>, i: int, e: (String, Node<C>), k: Seq<char>)
    requires
        0 <= i < g.len(),
        g[i].0@ == e.0@,
        k != e.0@,
    ensures
        lookup(g.update(i, e), k) == lookup(g, k),
    decreases g.len(),
{
    if i > 0 {
        assert(g.update(i, e).drop_first() =~= g.drop_first().update(i - 1, e));
        lemma_lookup_other_update(g.drop_first(), i - 1, e, k);
    } else {
        assert(g.update(i, e).drop_first() =~= g.drop_first());
    }
}

proof fn lemma_lookup_push_other<C>(g: Seq<(String, Node<C>)>, e: (String, Node<C>), k: Seq<char>)
    requires
        k != e.0@,
    ensures
        lookup(g.push(e), k) == lookup(g, k),
    decreases g.len(),
{
    if g.len() > 0 {
        assert(g.push(e).drop_first() =~= g.drop_first().push(e));
        assert(g.push(e)[0] == g[0]);
        lemma_lookup_push_other(g.drop_first(), e, k);
    } else {
        assert(g.push(e).drop_first() =~= Seq::<(String, Node<C>)>::empty());
        assert(g.push(e)[0] == e);
        assert(lookup(Seq::<(String, Node<C>)>::empty(), k) is None);
    }
}


/// `c` is a cycle of dependencies: each of its names depends on the next,
/// and the last on the first.
pub open spec fn is_cycle<C>(g: Seq<(String, Node<C>)>, c: Seq<Seq<char>>) -> bool {
    &&& c.len() > 0
    &&& forall|k: int| 0 <= k < c.len() - 1 ==> #[trigger] depends_on(g, c[k], c[k + 1])
    &&& depends_on(g, c.last(), c[0])
}

/// The dependencies of the graph contain a cycle.
pub open spec fn has_cycle<C>(g: Seq<(String, Node<C>)>) -> bool {
    exists|c: Seq<Seq<char>>| is_cycle(g, c)
}

/// In an evaluation order, the positions of the names of a cycle fall
/// strictly along it: the name `k` steps in stands at least `k` places
/// before the first.
proof fn lemma_cycle_positions<C>(g: Seq<(String, Node<C>)>, o: Seq<Seq<char>>, c: Seq<Seq<char>>, p0: int, k: int)
    requires
        is_eval_order(g, o),
        is_cycle(g, c),
        0 <= p0 < o.len(),
        o[p0] == c[0],
        0 <= k < c.len(),
    ensures
        exists|m: int| 0 <= m < o.len() && o[m] == c[k] && m <= p0 - k,
    decreases k,
{
    if k > 0 {
        lemma_cycle_positions(g, o, c, p0, k - 1);
        let m = choose|m: int| 0 <= m < o.len() && o[m] == c[k - 1] && m <= p0 - (k - 1);
        let j = k - 1;
        assert(depends_on(g, c[j], c[j + 1]));
        assert(c[j + 1] == c[k]);
        assert(in_graph(g, c[k]));
        assert(o.contains(c[k]));
        let m2 = choose|m2: int| 0 <= m2 < o.len() && o[m2] == c[k];
        assert(depends_on(g, o[m], o[m2]));
    }
}

/// A graph with an evaluation order has no cycle.
proof fn lemma_order_no_cycle<C>(g: Seq<(String, Node<C>)>, o: Seq<Seq<char>>, c: Seq<Seq<char>>)
    requires
        is_eval_order(g, o),
    ensures
        !is_cycle(g, c),
{
    if is_cycle(g, c) {
        assert(depends_on(g, c.last(), c[0]));
        assert(in_graph(g, c[0]));
        assert(o.contains(c[0]));
        let p0 = choose|p0: int| 0 <= p0 < o.len() && o[p0] == c[0];
        lemma_cycle_positions(g, o, c, p0, c.len() - 1);
        let m = choose|m: int| 0 <= m < o.len() && o[m] == c[c.len() - 1] && m <= p0 - (c.len() - 1);
        assert(depends_on(g, o[m], o[p0]));
    }
}

/// A sequence longer than a finite set it lies in repeats an element.
proof fn lemma_repeat(w: Seq<Seq<char>>, ns: Set<Seq<char>>) -> (ij: (int, int))
    requires
        ns.finite(),
        w.len() > ns.len(),
        forall|t: int| 0 <= t < w.len() ==> ns.contains(#[trigger] w[t]),
    ensures
        0 <= ij.0 < ij.1 < w.len(),
        w[ij.0] == w[ij.1],
{
    broadcast use vstd::set::group_set_axioms, vstd::seq_lib::seq_to_set_is_finite;

    if w.no_duplicates() {
        w.unique_seq_to_set();
        assert(w.to_set().subset_of(ns)) by {
            assert forall|z: Seq<char>| w.to_set().contains(z) implies ns.contains(z) by {
                let t = choose|t: int| 0 <= t < w.len() && w[t] == z;
            }
        }
        vstd::set_lib::lemma_len_subset(w.to_set(), ns);
    }
    let (i, j) = choose|i: int, j: int| 0 <= i < w.len() && 0 <= j < w.len() && i != j && w[i] == w[j];
    if i < j {
        (i, j)
    } else {
        (j, i)
    }
}

/// `c` is a cycle of the relation `r`.
spec fn rel_cycle(r: spec_fn(Seq<char>, Seq<char>) -> bool, c: Seq<Seq<char>>) -> bool {
    &&& c.len() > 0
    &&& forall|k: int| 0 <= k < c.len() - 1 ==> #[trigger] r(c[k], c[k + 1])
    &&& r(c.last(), c[0])
}

/// A name of `ns` that `x` is related to by `r`, where there is one.
spec fn next_in(r: spec_fn(Seq<char>, Seq<char>) -> bool, ns: Set<Seq<char>>, x: Seq<char>) -> Seq<char> {
    choose|y: Seq<char>| ns.contains(y) && r(x, y)
}

/// The walk of `k` steps from `x` that always moves to [`next_in`].
spec fn walk(r: spec_fn(Seq<char>, Seq<char>) -> bool, ns: Set<Seq<char>>, x: Seq<char>, k: nat) -> Seq<Seq<char>>
    decreases k,
{
    if k == 0 {
        seq![x]
    } else {
        let w = walk(r, ns, x, (k - 1) as nat);
        w.push(next_in(r, ns, w.last()))
    }
}

proof fn lemma_walk(r: spec_fn(Seq<char>, Seq<char>) -> bool, ns: Set<Seq<char>>, x: Seq<char>, k: nat)
    requires
        ns.contains(x),
        forall|z: Seq<char>|
            ns.contains(z) ==> ns.contains(#[trigger] next_in(r, ns, z)) && r(z, next_in(r, ns, z)),
    ensures
        walk(r, ns, x, k).len() == k + 1,
        forall|t: int| 0 <= t < k + 1 ==> ns.contains(#[trigger] walk(r, ns, x, k)[t]),
        forall|t: int| 0 <= t < k ==> r(#[trigger] walk(r, ns, x, k)[t], walk(r, ns, x, k)[t + 1]),
    decreases k,
{
    if k > 0 {
        lemma_walk(r, ns, x, (k - 1) as nat);
        let w = walk(r, ns, x, (k - 1) as nat);
        let w2 = walk(r, ns, x, k);
        assert(w2 == w.push(next_in(r, ns, w.last())));
        assert(ns.contains(w[k - 1]));
        let y = next_in(r, ns, w[k - 1]);
        assert(ns.contains(y) && r(w[k - 1], y));
        assert forall|t: int| 0 <= t < k + 1 implies ns.contains(#[trigger] w2[t]) by {
            if t < k {
                assert(w2[t] == w[t]);
            }
        }
        assert forall|t: int| 0 <= t < k implies r(#[trigger] w2[t], w2[t + 1]) by {
            assert(w2[t] == w[t]);
            if t < k - 1 {
                assert(w2[t + 1] == w[t + 1]);
            }
        }
    }
}

/// A stretch of a walk of `r` that returns to where it began is a cycle.
proof fn lemma_walk_cycle(r: spec_fn(Seq<char>, Seq<char>) -> bool, w: Seq<Seq<char>>, a: int, b: int)
    requires
        0 <= a < b < w.len(),
        w[a] == w[b],
        forall|t: int| 0 <= t < w.len() - 1 ==> r(#[trigger] w[t], w[t + 1]),
    ensures
        rel_cycle(r, w.subrange(a, b)),
{
    let c = w.subrange(a, b);
    assert forall|k: int| 0 <= k < c.len() - 1 implies #[trigger] r(c[k], c[k + 1]) by {
        let t = a + k;
        assert(r(w[t], w[t + 1]));
        assert(c[k] == w[t]);
        assert(c[k + 1] == w[t + 1]);
    }
    let t = b - 1;
    assert(r(w[t], w[t + 1]));
    assert(c.last() == w[t]);
    assert(w[t + 1] == w[b]);
}

/// Without a cycle of `r`, a nonempty finite set of names holds one that is
/// related to no name of the set.
proof fn lemma_free_name(r: spec_fn(Seq<char>, Seq<char>) -> bool, ns: Set<Seq<char>>) -> (x: Seq<char>)
    requires
        ns.finite(),
        ns.len() > 0,
        forall|c: Seq<Seq<char>>| !rel_cycle(r, c),
    ensures
        ns.contains(x),
        forall|y: Seq<char>| ns.contains(y) ==> !r(x, y),
{
    if forall|z: Seq<char>| ns.contains(z) ==> exists|y: Seq<char>| ns.contains(y) && r(z, y) {
        assert forall|z: Seq<char>| ns.contains(z) implies ns.contains(#[trigger] next_in(r, ns, z)) && r(
            z,
            next_in(r, ns, z),
        ) by {
            let y = choose|y: Seq<char>| ns.contains(y) && r(z, y);
        }
        vstd::set::axiom_set_choose_len(ns);
        let x0 = ns.choose();
        let w = walk(r, ns, x0, ns.len());
        lemma_walk(r, ns, x0, ns.len());
        let (a, b) = lemma_repeat(w, ns);
        lemma_walk_cycle(r, w, a, b);
        assert(!rel_cycle(r, w.subrange(a, b)));
    }
    choose|x: Seq<char>| ns.contains(x) && forall|y: Seq<char>| ns.contains(y) ==> !r(x, y)
}

/// Without a cycle of `r`, the names of a finite set can be listed once
/// each, every name after the names it is related to.
proof fn lemma_order_of(r: spec_fn(Seq<char>, Seq<char>) -> bool, ns: Set<Seq<char>>) -> (o: Seq<Seq<char>>)
    requires
        ns.finite(),
        forall|c: Seq<Seq<char>>| !rel_cycle(r, c),
    ensures
        o.no_duplicates(),
        forall|x: Seq<char>| o.contains(x) <==> ns.contains(x),
        forall|i: int, j: int| 0 <= i < o.len() && 0 <= j < o.len() && r(o[j], o[i]) ==> i < j,
    decreases ns.len(),
{
    broadcast use vstd::set::group_set_axioms;

    if ns.len() == 0 {
        vstd::set_lib::lemma_set_empty_equivalency_len(ns);
        Seq::empty()
    } else {
        let x = lemma_free_name(r, ns);
        let rest = ns.remove(x);
        let o2 = lemma_order_of(r, rest);
        let o = seq![x] + o2;
        assert forall|t: int| 0 <= t < o2.len() implies o[t + 1] == o2[t] by {}
        assert(o.no_duplicates()) by {
            assert forall|a: int, b: int| 0 <= a < o.len() && 0 <= b < o.len() && a != b implies o[a] != o[b] by {
                if a > 0 && b > 0 {
                    assert(o[a] == o2[a - 1] && o[b] == o2[b - 1]);
                } else if a == 0 {
                    assert(o[b] == o2[b - 1]);
                    assert(o2.contains(o2[b - 1]));
                } else {
                    assert(o[a] == o2[a - 1]);
                    assert(o2.contains(o2[a - 1]));
                }
            }
        }
        assert forall|z: Seq<char>| o.contains(z) <==> ns.contains(z) by {
            if o.contains(z) {
                let t = choose|t: int| 0 <= t < o.len() && o[t] == z;
                if t > 0 {
                    assert(o2[t - 1] == z);
                    assert(o2.contains(z));
                }
            }
            if ns.contains(z) {
                if z == x {
                    assert(o[0] == x);
                } else {
                    assert(rest.contains(z));
                    let t = choose|t: int| 0 <= t < o2.len() && o2[t] == z;
                    assert(o[t + 1] == z);
                }
            }
        }
        assert forall|i: int, j: int| 0 <= i < o.len() && 0 <= j < o.len() && r(o[j], o[i]) implies i < j by {
            if j == 0 {
                assert(o.contains(o[i]));
                assert(ns.contains(o[i]));
            } else if i > 0 {
                assert(o[i] == o2[i - 1] && o[j] == o2[j - 1]);
            }
        }
        o
    }
}

/// The names that take part in the graph form a finite set.
proof fn lemma_graph_names_finite<C>(g: Seq<(String, Node<C>)>) -> (ns: Set<Seq<char>>)
    ensures
        ns.finite(),
        forall|x: Seq<char>| ns.contains(x) <==> in_graph(g, x),
{
    broadcast use vstd::set::group_set_axioms, vstd::seq_lib::seq_to_set_is_finite;

    let hp = hot_pairs(g);
    let sa = hp.map_values(|p: (Seq<char>, Seq<char>)| p.0);
    let sb = hp.map_values(|p: (Seq<char>, Seq<char>)| p.1);
    let a = sa.to_set();
    let b = sb.to_set();
    let ns = a.union(b);
    assert forall|x: Seq<char>| ns.contains(x) <==> in_graph(g, x) by {
        if in_graph(g, x) {
            let y = choose|y: Seq<char>|
                #![trigger depends_on(g, x, y)]
                #![trigger depends_on(g, y, x)]
                depends_on(g, x, y) || depends_on(g, y, x);
            if depends_on(g, x, y) {
                let s = choose|s: int| 0 <= s < hp.len() && hp[s] == (x, y);
                assert(sa[s] == x);
                assert(a.contains(x));
            } else {
                let s = choose|s: int| 0 <= s < hp.len() && hp[s] == (y, x);
                assert(sb[s] == x);
                assert(b.contains(x));
            }
        }
        if a.contains(x) {
            let s = choose|s: int| 0 <= s < sa.len() && sa[s] == x;
            assert(hp.contains(hp[s]));
            assert(depends_on(g, x, hp[s].1));
        }
        if b.contains(x) {
            let s = choose|s: int| 0 <= s < sb.len() && sb[s] == x;
            assert(hp.contains(hp[s]));
            assert(depends_on(g, hp[s].0, x));
        }
    }
    ns
}

/// The nodes of a graph can be put in an evaluation order exactly when
/// their references contain no cycle.
pub proof fn law_eval_order_iff_acyclic<C>(g: Seq<(String, Node<C>)>)
    ensures
        has_eval_order(g) <==> !has_cycle(g),
{
    if has_eval_order(g) {
        let o = choose|o: Seq<Seq<char>>| is_eval_order(g, o);
        assert forall|c: Seq<Seq<char>>| !is_cycle(g, c) by {
            lemma_order_no_cycle(g, o, c);
        }
    }
    if !has_cycle(g) {
        let r = |x: Seq<char>, y: Seq<char>| depends_on(g, x, y);
        assert forall|c: Seq<Seq<char>>| !rel_cycle(r, c) by {
            if rel_cycle(r, c) {
                assert forall|k: int| 0 <= k < c.len() - 1 implies #[trigger] depends_on(g, c[k], c[k + 1]) by {
                    assert(r(c[k], c[k + 1]));
                }
                assert(is_cycle(g, c));
            }
        }
        let ns = lemma_graph_names_finite(g);
        let o = lemma_order_of(r, ns);
        assert(is_eval_order(g, o));
    }
}

} // verus!
