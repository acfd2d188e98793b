//! What a control script knows besides the controls themselves: aliases,
//! bypassed controls, modulations and the dependency graph of references,
//! and the plan for reading one control.
use vstd::prelude::*;

use super::dep_graph::DepGraph;
use super::eval_cache::EvalCache;
use super::hot_params::text_map;
use super::run_plan::{dependencies_to_run, first_index, pending_prefix, resolve_name};
use crate::framework::dep_order::{entry_names, has_eval_order, is_eval_order, lookup, str_views};
use crate::framework::named_map::NamedMap;
use crate::framework::param_mod::{Node, ParamValue};

verus! {

/// How to read a control.
pub enum GetPlan<V> {
    /// The control is bypassed: its value is this one.
    Bypass(V),
    /// Evaluate `dependencies` in order, then `name`, then apply
    /// `modulators` in order to its value.
    Evaluate { name: String, dependencies: Vec<String>, modulators: Vec<String> },
}

/// Whether `node` holds exactly the references of `refs`, in the order of
/// `names`.
pub open spec fn node_of_refs<C>(node: Seq<(String, ParamValue<C>)>, names: Seq<Seq<char>>, refs: Map<Seq<char>, Seq<char>>) -> bool {
    &&& node.len() == names.len()
    &&& forall|i: int|
        0 <= i < node.len() ==> (#[trigger] node[i]).0@ == names[i] && (node[i].1 matches ParamValue::Hot(t)
            && t@ == refs[names[i]])
}

/// The name a control is read under: its alias target, or itself.
pub open spec fn resolved_name(aliases: Map<Seq<char>, Seq<char>>, name: Seq<char>) -> Seq<char> {
    if aliases.contains_key(name) {
        aliases[name]
    } else {
        name
    }
}

pub(crate) fn copy_strings(v: &Vec<String>) -> (r: Vec<String>)
    ensures
        str_views(r@) == str_views(v@),
{
    let mut r: Vec<String> = Vec::new();
    let mut i: usize = 0;
    while i < v.len()
        invariant
            0 <= i <= v.len(),
            str_views(r@) == str_views(v@).take(i as int),
        decreases v.len() - i,
    {
        let ghost r0 = r@;
        r.push(v[i].clone());
        proof {
            assert(str_views(r@) =~= str_views(r0).push(v@[i as int]@));
            assert(str_views(v@).take(i + 1) =~= str_views(v@).take(i as int).push(v@[i as int]@));
        }
        i = i + 1;
    }
    assert(str_views(v@).take(i as int) =~= str_views(v@));
    r
}

/// The node of references of `refs`, in insertion order.
pub fn node_from_refs<C>(refs: &NamedMap<String>) -> (r: Node<C>)
    ensures
        node_of_refs(r@, refs.names(), text_map(refs@)),
{
    let n = refs.len();
    let mut r: Node<C> = Vec::new();
    let mut i: usize = 0;
    while i < n
        invariant
            0 <= i <= n,
            n == refs.names().len(),
            r@.len() == i,
            forall|k: int|
                0 <= k < i ==> (#[trigger] r@[k]).0@ == refs.names()[k] && (r@[k].1 matches ParamValue::Hot(t)
                    && t@ == text_map(refs@)[refs.names()[k]]),
        decreases n - i,
    {
        let (name, target) = refs.entry_at(i);
        r.push((name.clone(), ParamValue::Hot(target.clone())));
        i = i + 1;
    }
    r
}

/// The aliases, bypassed controls, modulations and references of a
/// control script.
pub struct ScriptIndex<C, V> {
    aliases: NamedMap<String>,
    bypassed: NamedMap<V>,
    modulations: NamedMap<Vec<String>>,
    dep_graph: DepGraph<C>,
}

impl<C, V: Copy> ScriptIndex<C, V> {
    /// Alias to the control it stands for.
    pub closed spec fn aliases(self) -> Map<Seq<char>, Seq<char>> {
        text_map(self.aliases@)
    }

    /// Bypassed control to its fixed value.
    pub closed spec fn bypassed(self) -> Map<Seq<char>, V> {
        self.bypassed@
    }

    /// Modulated control to its modulators, in order.
    pub closed spec fn modulations(self) -> Map<Seq<char>, Seq<Seq<char>>> {
        self.modulations@.map_values(|v: Vec<String>| str_views(v@))
    }

    pub closed spec fn graph(self) -> DepGraph<C> {
        self.dep_graph
    }

    /// Knows nothing.
    pub fn new() -> (r: Self)
        ensures
            r.aliases() == Map::<Seq<char>, Seq<char>>::empty(),
            r.bypassed() == Map::<Seq<char>, V>::empty(),
            r.modulations() == Map::<Seq<char>, Seq<Seq<char>>>::empty(),
            r.graph().entries() == Seq::<(String, Node<C>)>::empty(),
            r.graph().order_view() is None,
    {
        let r = ScriptIndex {
            aliases: NamedMap::new(),
            bypassed: NamedMap::new(),
            modulations: NamedMap::new(),
            dep_graph: DepGraph::new(),
        };
        proof {
            assert(text_map(r.aliases@) =~= Map::<Seq<char>, Seq<char>>::empty());
            assert(r.modulations() =~= Map::<Seq<char>, Seq<Seq<char>>>::empty());
        }
        r
    }

    /// Forgets everything, before a configuration is loaded again.
    pub fn clear(&mut self)
        ensures
            final(self).aliases() == Map::<Seq<char>, Seq<char>>::empty(),
            final(self).bypassed() == Map::<Seq<char>, V>::empty(),
            final(self).modulations() == Map::<Seq<char>, Seq<Seq<char>>>::empty(),
            final(self).graph().entries() == Seq::<(String, Node<C>)>::empty(),
            final(self).graph().order_view() is None,
    {
        self.aliases.clear();
        self.bypassed.clear();
        self.modulations.clear();
        self.dep_graph.clear();
        proof {
            assert(text_map(self.aliases@) =~= Map::<Seq<char>, Seq<char>>::empty());
            assert(self.modulations() =~= Map::<Seq<char>, Seq<Seq<char>>>::empty());
        }
    }

    /// Records control `id` of the configuration: its references `refs`
    /// (a node of the graph when there are any), the alias `var` that
    /// names it, and its fixed value when bypassed.
    pub fn register(&mut self, id: &str, refs: &NamedMap<String>, var: Option<&str>, bypass: Option<V>)
        ensures
            final(self).aliases() == (match var {
                Some(v) => old(self).aliases().insert(v@, id@),
                None => old(self).aliases(),
            }),
            final(self).bypassed() == (match bypass {
                Some(b) => old(self).bypassed().insert(id@, b),
                None => old(self).bypassed(),
            }),
            final(self).modulations() == old(self).modulations(),
            final(self).graph().order_view() == old(self).graph().order_view(),
            refs.names().len() == 0 ==> final(self).graph().entries() == old(self).graph().entries(),
            refs.names().len() > 0 ==> (lookup(final(self).graph().entries(), id@) matches Some(node)
                && node_of_refs(node@, refs.names(), text_map(refs@))),
            refs.names().len() > 0 ==> forall|k: Seq<char>|
                k != id@ ==> lookup(final(self).graph().entries(), k) == lookup(old(self).graph().entries(), k),
            refs.names().len() > 0 ==> forall|k: Seq<char>|
                entry_names(final(self).graph().entries()).contains(k) <==> (entry_names(
                    old(self).graph().entries(),
                ).contains(k) || k == id@),
    {
        if refs.len() > 0 {
            let node: Node<C> = node_from_refs(refs);
            self.dep_graph.insert_node(id, node);
        }
        if let Some(v) = var {
            let ghost a0 = self.aliases@;
            self.aliases.insert(v, id.to_owned());
            proof {
                assert(text_map(self.aliases@) =~= text_map(a0).insert(v@, id@));
            }
        }
        if let Some(b) = bypass {
            self.bypassed.insert(id, b);
        }
    }

    /// Appends `modulators` to the modulators of `source`.
    pub fn add_modulation(&mut self, source: &str, modulators: &Vec<String>)
        ensures
            final(self).modulations() == old(self).modulations().insert(
                source@,
                (if old(self).modulations().contains_key(source@) {
                    old(self).modulations()[source@]
                } else {
                    Seq::<Seq<char>>::empty()
                }) + str_views(modulators@),
            ),
            final(self).aliases() == old(self).aliases(),
            final(self).bypassed() == old(self).bypassed(),
            final(self).graph() == old(self).graph(),
    {
        let mut list: Vec<String> = match self.modulations.get(source) {
            Some(existing) => copy_strings(existing),
            None => Vec::new(),
        };
        let ghost l0 = str_views(list@);
        let mut i: usize = 0;
        while i < modulators.len()
            invariant
                0 <= i <= modulators.len(),
                str_views(list@) == l0 + str_views(modulators@).take(i as int),
            decreases modulators.len() - i,
        {
            let ghost before = list@;
            list.push(modulators[i].clone());
            proof {
                assert(str_views(list@) =~= str_views(before).push(modulators@[i as int]@));
                assert(str_views(modulators@).take(i + 1) =~= str_views(modulators@).take(i as int).push(
                    modulators@[i as int]@,
                ));
            }
            i = i + 1;
        }
        assert(str_views(modulators@).take(i as int) =~= str_views(modulators@));
        let ghost m0 = self.modulations@;
        self.modulations.insert(source, list);
        proof {
            assert(self.modulations() =~= m0.map_values(|v: Vec<String>| str_views(v@)).insert(
                source@,
                str_views(list@),
            ));
        }
    }

    /// Computes the order in which references are evaluated.
    pub fn build(&mut self)
        ensures
            final(self).aliases() == old(self).aliases(),
            final(self).bypassed() == old(self).bypassed(),
            final(self).modulations() == old(self).modulations(),
            final(self).graph().entries() == old(self).graph().entries(),
            has_eval_order(old(self).graph().entries()) ==> (final(self).graph().order_view() matches Some(o)
                && is_eval_order(old(self).graph().entries(), o)),
            !has_eval_order(old(self).graph().entries()) ==> final(self).graph().order_view() is None,
    {
        self.dep_graph.build_graph();
    }

    /// The dependency graph of references.
    pub fn dep_graph(&self) -> (r: &DepGraph<C>)
        ensures
            *r == self.graph(),
    {
        &self.dep_graph
    }

    /// How to read control `name` during `frame`, given what `cache` holds:
    /// the name is resolved through its alias; a bypassed control has its
    /// fixed value; otherwise the nodes it depends on that were not
    /// evaluated during the frame run first (when it has references and an
    /// order exists), and its modulators apply after.
    pub fn plan_get(&self, name: &str, cache: &EvalCache<V>, frame: u32) -> (r: GetPlan<V>)
        ensures
            ({
                let res = resolved_name(self.aliases(), name@);
                match r {
                    GetPlan::Bypass(v) => self.bypassed().contains_key(res) && self.bypassed()[res] == v,
                    GetPlan::Evaluate { name: n, dependencies, modulators } => {
                        &&& !self.bypassed().contains_key(res)
                        &&& n@ == res
                        &&& str_views(dependencies@) == (match self.graph().order_view() {
                            Some(o) => if entry_names(self.graph().entries()).contains(res) {
                                pending_prefix(o, first_index(o, res) as int, cache@, frame)
                            } else {
                                Seq::<Seq<char>>::empty()
                            },
                            None => Seq::<Seq<char>>::empty(),
                        })
                        &&& str_views(modulators@) == (if self.modulations().contains_key(res) {
                            self.modulations()[res]
                        } else {
                            Seq::<Seq<char>>::empty()
                        })
                    },
                }
            }),
    {
        let resolved = resolve_name(&self.aliases, name);
        if let Some(b) = self.bypassed.get(resolved.as_str()) {
            return GetPlan::Bypass(*b);
        }
        let dependencies = if self.dep_graph.has_dependents(resolved.as_str()) {
            match self.dep_graph.order() {
                Some(order) => dependencies_to_run(order, resolved.as_str(), cache, frame),
                None => Vec::new(),
            }
        } else {
            Vec::new()
        };
        let modulators = match self.modulations.get(resolved.as_str()) {
            Some(list) => copy_strings(list),
            None => Vec::new(),
        };
        proof {
            assert(str_views(Seq::<String>::empty()) =~= Seq::<Seq<char>>::empty());
        }
        GetPlan::Evaluate { name: resolved, dependencies, modulators }
    }
}

} // verus!
