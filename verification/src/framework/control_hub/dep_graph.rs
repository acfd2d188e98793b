//! Dependency graph of hot parameters, remembering which nodes are
//! dependencies of others.
use vstd::prelude::*;

use crate::framework::dep_order::{
    entry_names, eval_order, find_entry, has_eval_order, in_graph, insert_entry, is_eval_order, lookup,
    str_views, unique_names,
};
use crate::framework::param_mod::Node;
use crate::framework::text::str_eq;

verus! {

/// Node graph keyed by node name, its evaluation order once built, and the
/// names that some other node depends on.
pub struct DepGraph<C> {
    graph: Vec<(String, Node<C>)>,
    eval_order: Option<Vec<String>>,
    /// Names marked as dependencies of other nodes.
    is_dep: Vec<String>,
}

impl<C> DepGraph<C> {
    #[verifier::type_invariant]
    spec fn inv(self) -> bool {
        unique_names(self.graph@)
    }

    /// The (node name, parameters) entries of the graph.
    pub closed spec fn entries(self) -> Seq<(String, Node<C>)> {
        self.graph@
    }

    /// The evaluation order, when one has been built.
    pub closed spec fn order_view(self) -> Option<Seq<Seq<char>>> {
        match self.eval_order {
            Some(o) => Some(str_views(o@)),
            None => None,
        }
    }

    /// Names that were found to be dependencies of other nodes.
    pub closed spec fn dependency_names(self) -> Set<Seq<char>> {
        str_views(self.is_dep@).to_set()
    }

    pub fn new() -> (r: Self)
        ensures
            r.entries() == Seq::<(String, Node<C>)>::empty(),
            r.order_view() is None,
            r.dependency_names() == Set::<Seq<char>>::empty(),
    {
        let r = Self { graph: Vec::new(), eval_order: None, is_dep: Vec::new() };
        proof {
            assert(str_views(r.is_dep@).to_set() =~= Set::<Seq<char>>::empty());
        }
        r
    }

    /// Whether an order has been built and `name` is a node of the graph.
    pub fn has_dependents(&self, name: &str) -> (r: bool)
        ensures
            r == (self.order_view() is Some && entry_names(self.entries()).contains(name@)),
    {
        let found = find_entry(&self.graph, name);
        proof {
            if let Some(i) = found {
                assert(entry_names(self.graph@)[i as int] == name@);
            }
        }
        self.eval_order.is_some() && found.is_some()
    }

    /// Whether `name` was marked as a dependency by [`Self::build_graph`].
    pub fn is_dependency(&self, name: &str) -> (r: bool)
        ensures
            r == self.dependency_names().contains(name@),
    {
        names_contain(&self.is_dep, name)
    }

    /// The parameters of the node called `name`.
    pub fn node(&self, name: &str) -> (r: Option<&Node<C>>)
        ensures
            r matches Some(n) ==> lookup(self.entries(), name@) == Some(*n),
            r is None ==> lookup(self.entries(), name@) is None,
    {
        match find_entry(&self.graph, name) {
            Some(i) => Some(&self.graph[i].1),
            None => None,
        }
    }

    /// Stores `node` under `name`, replacing any node of that name. The
    /// evaluation order is left as it was until the next build.
    pub fn insert_node(&mut self, name: &str, node: Node<C>)
        ensures
            lookup(final(self).entries(), name@) == Some(node),
            forall|k: Seq<char>| k != name@ ==> lookup(final(self).entries(), k) == lookup(old(self).entries(), k),
            forall|k: Seq<char>|
                entry_names(final(self).entries()).contains(k) <==> (entry_names(old(self).entries()).contains(k)
                    || k == name@),
            final(self).order_view() == old(self).order_view(),
            final(self).dependency_names() == old(self).dependency_names(),
    {
        proof {
            use_type_invariant(&*self);
        }
        let mut graph = Vec::new();
        std::mem::swap(&mut graph, &mut self.graph);
        insert_entry(&mut graph, name, node);
        self.graph = graph;
    }

    pub fn order(&self) -> (r: &Option<Vec<String>>)
        ensures
            match *r {
                Some(o) => self.order_view() == Some(str_views(o@)),
                None => self.order_view() is None,
            },
    {
        &self.eval_order
    }

    pub fn graph(&self) -> (r: &Vec<(String, Node<C>)>)
        ensures
            r@ == self.entries(),
    {
        &self.graph
    }

    /// Removes every node and forgets the evaluation order. Dependency marks
    /// are kept.
    pub fn clear(&mut self)
        ensures
            final(self).entries() == Seq::<(String, Node<C>)>::empty(),
            final(self).order_view() is None,
            final(self).dependency_names() == old(self).dependency_names(),
    {
        self.graph = Vec::new();
        self.eval_order = None;
    }

    /// Computes the evaluation order of the current nodes. On success every
    /// name of the order is marked as a dependency; an empty order is kept
    /// as no order. When the references contain a cycle there is no order.
    pub fn build_graph(&mut self)
        ensures
            final(self).entries() == old(self).entries(),
            has_eval_order(old(self).entries()) && (exists|x: Seq<char>| in_graph(old(self).entries(), x))
                ==> (final(self).order_view() matches Some(o) && is_eval_order(old(self).entries(), o)),
            !has_eval_order(old(self).entries()) || !(exists|x: Seq<char>| in_graph(old(self).entries(), x))
                ==> final(self).order_view() is None,
            final(self).order_view() is Some ==> final(self).dependency_names() == old(
                self,
            ).dependency_names().union(Set::new(|x: Seq<char>| in_graph(old(self).entries(), x))),
            final(self).order_view() is None ==> final(self).dependency_names() == old(self).dependency_names(),
    {
        proof {
            use_type_invariant(&*self);
        }
        let ghost g = self.graph@;
        match eval_order(&self.graph) {
            Some(order) => {
                if order.len() == 0 {
                    self.eval_order = None;
                    proof {
                        assert forall|x: Seq<char>| !in_graph(g, x) by {
                            assert(!str_views(order@).contains(x));
                        }
                    }
                } else {
                    let mut deps: Vec<String> = Vec::new();
                    std::mem::swap(&mut deps, &mut self.is_dep);
                    let ghost d0 = deps@;
                    let mut i: usize = 0;
                    while i < order.len()
                        invariant
                            0 <= i <= order.len(),
                            str_views(deps@).to_set() == str_views(d0).to_set().union(
                                str_views(order@).take(i as int).to_set(),
                            ),
                        decreases order.len() - i,
                    {
                        let ghost before = deps@;
                        if !names_contain(&deps, order[i].as_str()) {
                            deps.push(order[i].clone());
                        }
                        proof {
                            assert(str_views(order@).take(i + 1) =~= str_views(order@).take(i as int).push(
                                order@[i as int]@,
                            ));
                            assert(str_views(deps@).to_set() =~= str_views(before).to_set().insert(
                                order@[i as int]@,
                            )) by {
                                if deps@ != before {
                                    assert(str_views(deps@) =~= str_views(before).push(order@[i as int]@));
                                }
                                assert forall|x: Seq<char>|
                                    str_views(deps@).contains(x) <==> (str_views(before).contains(x) || x
                                        == order@[i as int]@) by {
                                    if str_views(deps@).contains(x) {
                                        let k = choose|k: int|
                                            0 <= k < str_views(deps@).len() && str_views(deps@)[k] == x;
                                        if k < before.len() {
                                            assert(str_views(before)[k] == x);
                                        }
                                    }
                                    if str_views(before).contains(x) {
                                        let k = choose|k: int| 0 <= k < str_views(before).len() && str_views(before)[k] == x;
                                        assert(str_views(deps@)[k] == x);
                                    }
                                    if x == order@[i as int]@ && deps@ != before {
                                        assert(str_views(deps@)[before.len() as int] == x);
                                    }
                                }
                            }
                            lemma_push_to_set(str_views(order@).take(i as int), order@[i as int]@);
                        }
                        i = i + 1;
                    }
                    self.is_dep = deps;
                    proof {
                        assert(str_views(order@).take(order.len() as int) =~= str_views(order@));
                        assert(str_views(order@).to_set() =~= Set::new(|x: Seq<char>| in_graph(g, x)));
                        assert(str_views(order@).contains(str_views(order@)[0]));
                        assert(in_graph(g, str_views(order@)[0]));
                    }
                    self.eval_order = Some(order);
                }
            },
            None => {
                self.eval_order = None;
            },
        }
    }
}

proof fn lemma_push_to_set<A>(s: Seq<A>, x: A)
    ensures
        s.push(x).to_set() == s.to_set().insert(x),
{
    assert forall|y: A| s.push(x).contains(y) <==> (s.contains(y) || y == x) by {
        if s.push(x).contains(y) {
            let k = choose|k: int| 0 <= k < s.push(x).len() && s.push(x)[k] == y;
            if k < s.len() {
                assert(s[k] == y);
            }
        }
        if s.contains(y) {
            let k = choose|k: int| 0 <= k < s.len() && s[k] == y;
            assert(s.push(x)[k] == y);
        }
        if y == x {
            assert(s.push(x)[s.len() as int] == y);
        }
    }
    assert forall|y: A| s.push(x).to_set().contains(y) <==> s.to_set().insert(x).contains(y) by {
        assert(s.push(x).to_set().contains(y) == s.push(x).contains(y));
        assert(s.to_set().contains(y) == s.contains(y));
        assert(s.push(x).contains(y) <==> (s.contains(y) || y == x));
    }
    assert(s.push(x).to_set() =~= s.to_set().insert(x));
}

/// Whether some string of `v` equals `name`.
fn names_contain(v: &Vec<String>, name: &str) -> (r: bool)
    ensures
        r == str_views(v@).contains(name@),
{
    let mut i: usize = 0;
    while i < v.len()
        invariant
            0 <= i <= v.len(),
            forall|k: int| 0 <= k < i ==> v@[k]@ != name@,
        decreases v.len() - i,
    {
        if str_eq(v[i].as_str(), name) {
            proof {
                assert(str_views(v@)[i as int] == name@);
            }
            return true;
        }
        i = i + 1;
    }
    proof {
        if str_views(v@).contains(name@) {
            let k = choose|k: int| 0 <= k < str_views(v@).len() && str_views(v@)[k] == name@;
            assert(v@[k]@ == name@);
        }
    }
    false
}

} // verus!
