//! Dependency graph of hot parameters of a control script.
use vstd::prelude::*;

use crate::framework::dep_order::{
    entry_names, eval_order, find_entry, has_eval_order, insert_entry, is_eval_order, lookup, str_views,
    unique_names,
};
use crate::framework::param_mod::Node;

verus! {

/// Node graph keyed by node name, and its evaluation order once built.
pub struct DepGraph<C> {
    graph: Vec<(String, Node<C>)>,
    eval_order: Option<Vec<String>>,
}

impl<C> DepGraph<C> {
    #[verifier::type_invariant]
    spec fn inv(self) -> bool {
        unique_names(self.graph@)
    }

    /// The (node name, parameters) entries of the graph.
    pub closed spec fn entries(self) -> Seq<(String, Node<C>)> {
        self.graph@
    }

    /// The evaluation order, when one has been built.
    pub closed spec fn order_view(self) -> Option<Seq<Seq<char>>> {
        match self.eval_order {
            Some(o) => Some(str_views(o@)),
            None => None,
        }
    }

    pub fn new() -> (r: Self)
        ensures
            r.entries() == Seq::<(String, Node<C>)>::empty(),
            r.order_view() is None,
    {
        Self { graph: Vec::new(), eval_order: None }
    }

    /// Computes the evaluation order of the current nodes; there is none
    /// when the references contain a cycle.
    pub fn build_graph(&mut self)
        ensures
            final(self).entries() == old(self).entries(),
            has_eval_order(old(self).entries()) ==> (final(self).order_view() matches Some(o) && is_eval_order(
                old(self).entries(),
                o,
            )),
            !has_eval_order(old(self).entries()) ==> final(self).order_view() is None,
    {
        proof {
            use_type_invariant(&*self);
        }
        self.eval_order = eval_order(&self.graph);
    }

    /// Whether an order has been built and `name` is a node of the graph.
    pub fn has_dependents(&self, name: &str) -> (r: bool)
        ensures
            r == (self.order_view() is Some && entry_names(self.entries()).contains(name@)),
    {
        let found = find_entry(&self.graph, name);
        proof {
            if let Some(i) = found {
                assert(entry_names(self.graph@)[i as int] == name@);
            }
        }
        self.eval_order.is_some() && found.is_some()
    }

    /// The parameters of the node called `name`.
    pub fn node(&self, name: &str) -> (r: Option<&Node<C>>)
        ensures
            r matches Some(n) ==> lookup(self.entries(), name@) == Some(*n),
            r is None ==> lookup(self.entries(), name@) is None,
    {
        match find_entry(&self.graph, name) {
            Some(i) => Some(&self.graph[i].1),
            None => None,
        }
    }

    /// Stores `node` under `name`, replacing any node of that name. The
    /// evaluation order is left as it was until the next build.
    pub fn insert_node(&mut self, name: &str, node: Node<C>)
        ensures
            lookup(final(self).entries(), name@) == Some(node),
            forall|k: Seq<char>| k != name@ ==> lookup(final(self).entries(), k) == lookup(old(self).entries(), k),
            forall|k: Seq<char>|
                entry_names(final(self).entries()).contains(k) <==> (entry_names(old(self).entries()).contains(k)
                    || k == name@),
            final(self).order_view() == old(self).order_view(),
    {
        proof {
            use_type_invariant(&*self);
        }
        let mut graph = Vec::new();
        std::mem::swap(&mut graph, &mut self.graph);
        insert_entry(&mut graph, name, node);
        self.graph = graph;
    }

    pub fn order(&self) -> (r: &Option<Vec<String>>)
        ensures
            match *r {
                Some(o) => self.order_view() == Some(str_views(o@)),
                None => self.order_view() is None,
            },
    {
        &self.eval_order
    }

    pub fn graph(&self) -> (r: &Vec<(String, Node<C>)>)
        ensures
            r@ == self.entries(),
    {
        &self.graph
    }

    /// Removes every node and forgets the evaluation order.
    pub fn clear(&mut self)
        ensures
            final(self).entries() == Seq::<(String, Node<C>)>::empty(),
            final(self).order_view() is None,
    {
        self.graph = Vec::new();
        self.eval_order = None;
    }
}

} // verus!
