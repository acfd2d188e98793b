//! What a control script rebuilds each time its configuration is loaded:
//! the user-interface controls with their values, the OSC controls it
//! declares, and its index of aliases, bypasses, modulations and
//! references. Values of type `V` are carried, never computed with.
use vstd::prelude::*;

use super::eval_cache::EvalCache;
use super::hot_params::text_map;
use super::retain::retained;
use super::script_index::{copy_strings, node_of_refs, ScriptIndex};
use crate::framework::dep_order::{entry_names, has_eval_order, is_eval_order, lookup, str_views};
use crate::framework::named_map::NamedMap;
use crate::framework::param_mod::Node;
use crate::framework::text::str_eq;

verus! {

/// The value of a user-interface control.
pub enum ControlValue<V> {
    Float(V),
    Bool(bool),
    String(String),
}

/// A control value, with its text as characters.
pub ghost enum ValueModel<V> {
    Float(V),
    Bool(bool),
    Str(Seq<char>),
}

impl<V> ControlValue<V> {
    pub open spec fn model(self) -> ValueModel<V> {
        match self {
            ControlValue::Float(v) => ValueModel::Float(v),
            ControlValue::Bool(b) => ValueModel::Bool(b),
            ControlValue::String(s) => ValueModel::Str(s@),
        }
    }
}

/// What one control of a configuration declares, as far as loading it is
/// concerned.
pub enum ControlEntry<V> {
    Slider { default: V },
    Checkbox { default: bool },
    Select { options: Vec<String>, default: String },
    Separator,
    /// A control driven by OSC messages to its own name.
    Osc { range: (V, V), default: V },
    /// Multiplies `source` by each of `modulators`.
    Modulation { source: String, modulators: Vec<String> },
    /// A kind that is evaluated elsewhere (animations, effects, audio).
    Unsupported,
}

/// One control of a configuration: its name, the controls its parameters
/// refer to (by key path), the alias it is also read under, its fixed
/// value when bypassed, and what it declares, or why that could not be
/// read.
pub struct ScriptEntry<V> {
    pub id: String,
    pub refs: NamedMap<String>,
    pub var: Option<String>,
    pub bypass: Option<V>,
    pub entry: Result<ControlEntry<V>, String>,
}

/// A user-interface control with its current value.
pub enum UiControl<V> {
    Slider { name: String, value: V },
    Checkbox { name: String, value: bool },
    Select { name: String, value: String, options: Vec<String> },
    Separator,
}

/// A user-interface control, with its texts as characters.
pub ghost enum UiModel<V> {
    Slider(Seq<char>, V),
    Checkbox(Seq<char>, bool),
    Select(Seq<char>, Seq<char>, Seq<Seq<char>>),
    Separator,
}

impl<V> UiControl<V> {
    pub open spec fn model(self) -> UiModel<V> {
        match self {
            UiControl::Slider { name, value } => UiModel::Slider(name@, value),
            UiControl::Checkbox { name, value } => UiModel::Checkbox(name@, value),
            UiControl::Select { name, value, options } => UiModel::Select(name@, value@, str_views(options@)),
            UiControl::Separator => UiModel::Separator,
        }
    }
}

/// An OSC control to register: its address (the control's name), its
/// range, its configured default, and the value it starts with.
pub struct OscSetting<V> {
    pub address: String,
    pub range: (V, V),
    pub default: V,
    pub value: V,
}

pub ghost struct OscModel<V> {
    pub address: Seq<char>,
    pub range: (V, V),
    pub default: V,
    pub value: V,
}

impl<V> OscSetting<V> {
    pub open spec fn model(self) -> OscModel<V> {
        OscModel { address: self.address@, range: self.range, default: self.default, value: self.value }
    }
}

/// The name of a control; a separator has none.
pub open spec fn ui_name<V>(c: UiModel<V>) -> Option<Seq<char>> {
    match c {
        UiModel::Slider(n, _) => Some(n),
        UiModel::Checkbox(n, _) => Some(n),
        UiModel::Select(n, _, _) => Some(n),
        UiModel::Separator => None,
    }
}

/// The value of a control; a separator has none.
pub open spec fn ui_value<V>(c: UiModel<V>) -> Option<ValueModel<V>> {
    match c {
        UiModel::Slider(_, v) => Some(ValueModel::Float(v)),
        UiModel::Checkbox(_, b) => Some(ValueModel::Bool(b)),
        UiModel::Select(_, s, _) => Some(ValueModel::Str(s)),
        UiModel::Separator => None,
    }
}

/// The first control of `cs` named `name`.
pub open spec fn control_in<V>(cs: Seq<UiModel<V>>, name: Seq<char>) -> Option<UiModel<V>>
    decreases cs.len(),
{
    if cs.len() == 0 {
        None
    } else if ui_name(cs[0]) == Some(name) {
        Some(cs[0])
    } else {
        control_in(cs.drop_first(), name)
    }
}

/// The value of the control of `cs` named `name`.
pub open spec fn value_in<V>(cs: Seq<UiModel<V>>, name: Seq<char>) -> Option<ValueModel<V>> {
    match control_in(cs, name) {
        Some(c) => ui_value(c),
        None => None,
    }
}

pub open spec fn float_of<V>(v: Option<ValueModel<V>>) -> Option<V> {
    match v {
        Some(ValueModel::Float(x)) => Some(x),
        _ => None,
    }
}

pub open spec fn bool_of<V>(v: Option<ValueModel<V>>) -> Option<bool> {
    match v {
        Some(ValueModel::Bool(b)) => Some(b),
        _ => None,
    }
}

pub open spec fn str_of<V>(v: Option<ValueModel<V>>) -> Option<Seq<char>> {
    match v {
        Some(ValueModel::Str(s)) => Some(s),
        _ => None,
    }
}

/// The held value, or the default where none is held.
pub open spec fn or_default<T>(held: Option<T>, default: T) -> T {
    match held {
        Some(v) => v,
        None => default,
    }
}

/// The user-interface controls that loading entry `e` adds, given the
/// controls `old` held before the load: a control keeps the value it held
/// when that value is of its own kind, and takes its default otherwise.
pub open spec fn ui_item<V>(e: ScriptEntry<V>, old: Seq<UiModel<V>>) -> Seq<UiModel<V>> {
    let held = value_in(old, e.id@);
    match e.entry {
        Ok(ControlEntry::Slider { default }) => seq![UiModel::Slider(e.id@, or_default(float_of(held), default))],
        Ok(ControlEntry::Checkbox { default }) => seq![UiModel::Checkbox(e.id@, or_default(bool_of(held), default))],
        Ok(ControlEntry::Select { options, default }) => seq![
            UiModel::Select(e.id@, or_default(str_of(held), default@), str_views(options@)),
        ],
        Ok(ControlEntry::Separator) => seq![UiModel::Separator],
        _ => Seq::empty(),
    }
}

/// The user-interface controls of the first `n` entries, in order.
pub open spec fn ui_spec<V>(es: Seq<ScriptEntry<V>>, n: int, old: Seq<UiModel<V>>) -> Seq<UiModel<V>>
    decreases n,
{
    if n <= 0 {
        Seq::empty()
    } else {
        ui_spec(es, n - 1, old) + ui_item(es[n - 1], old)
    }
}

/// The OSC control that loading entry `e` declares: it starts from the
/// live value under its address, where there is one.
pub open spec fn osc_item<V>(e: ScriptEntry<V>, live: Map<Seq<char>, V>) -> Seq<OscModel<V>> {
    match e.entry {
        Ok(ControlEntry::Osc { range, default }) => seq![
            OscModel {
                address: e.id@,
                range,
                default,
                value: if live.contains_key(e.id@) {
                    live[e.id@]
                } else {
                    default
                },
            },
        ],
        _ => Seq::empty(),
    }
}

/// The OSC controls of the first `n` entries, in order.
pub open spec fn osc_spec<V>(es: Seq<ScriptEntry<V>>, n: int, live: Map<Seq<char>, V>) -> Seq<OscModel<V>>
    decreases n,
{
    if n <= 0 {
        Seq::empty()
    } else {
        osc_spec(es, n - 1, live) + osc_item(es[n - 1], live)
    }
}

/// The aliases of the first `n` entries: each `var` names its control.
pub open spec fn aliases_spec<V>(es: Seq<ScriptEntry<V>>, n: int) -> Map<Seq<char>, Seq<char>>
    decreases n,
{
    if n <= 0 {
        Map::empty()
    } else {
        let m = aliases_spec(es, n - 1);
        match es[n - 1].var {
            Some(v) => m.insert(v@, es[n - 1].id@),
            None => m,
        }
    }
}

/// The bypassed controls of the first `n` entries, with their values.
pub open spec fn bypass_spec<V>(es: Seq<ScriptEntry<V>>, n: int) -> Map<Seq<char>, V>
    decreases n,
{
    if n <= 0 {
        Map::empty()
    } else {
        let m = bypass_spec(es, n - 1);
        match es[n - 1].bypass {
            Some(b) => m.insert(es[n - 1].id@, b),
            None => m,
        }
    }
}

/// The modulations of the first `n` entries: the modulators of each
/// source, in the order they are declared.
pub open spec fn mods_spec<V>(es: Seq<ScriptEntry<V>>, n: int) -> Map<Seq<char>, Seq<Seq<char>>>
    decreases n,
{
    if n <= 0 {
        Map::empty()
    } else {
        let m = mods_spec(es, n - 1);
        match es[n - 1].entry {
            Ok(ControlEntry::Modulation { source, modulators }) => m.insert(
                source@,
                (if m.contains_key(source@) {
                    m[source@]
                } else {
                    Seq::<Seq<char>>::empty()
                }) + str_views(modulators@),
            ),
            _ => m,
        }
    }
}

/// The graph entries `g` hold exactly the references of the first `n`
/// entries that have any, one node per control.
pub open spec fn graph_of<V>(g: Seq<(String, Node<V>)>, es: Seq<ScriptEntry<V>>, n: int) -> bool {
    &&& forall|k: Seq<char>|
        entry_names(g).contains(k) <==> exists|i: int|
            0 <= i < n && (#[trigger] es[i]).id@ == k && es[i].refs.names().len() > 0
    &&& forall|i: int|
        0 <= i < n && (#[trigger] es[i]).refs.names().len() > 0 ==> (lookup(g, es[i].id@) matches Some(node)
            && node_of_refs(node@, es[i].refs.names(), text_map(es[i].refs@)))
}

/// No two entries share a name, as in a mapping of controls.
pub open spec fn distinct_ids<V>(es: Seq<ScriptEntry<V>>) -> bool {
    forall|i: int, j: int| 0 <= i < es.len() && 0 <= j < es.len() && i != j ==> es[i].id@ != es[j].id@
}

/// The number of entries loaded from position `i` on before the first
/// one that could not be read.
pub open spec fn loaded_from<V>(es: Seq<ScriptEntry<V>>, i: int) -> int
    decreases es.len() - i,
{
    if i < 0 || i >= es.len() || es[i].entry is Err {
        i
    } else {
        loaded_from(es, i + 1)
    }
}

/// The position of the first entry that could not be read, or the number
/// of entries when all could.
pub open spec fn loaded<V>(es: Seq<ScriptEntry<V>>) -> int {
    loaded_from(es, 0)
}

proof fn lemma_loaded<V>(es: Seq<ScriptEntry<V>>, i: int, j: int)
    requires
        0 <= j <= i <= es.len(),
        forall|t: int| 0 <= t < i ==> (#[trigger] es[t]).entry is Ok,
        i == es.len() || es[i].entry is Err,
    ensures
        loaded_from(es, j) == i,
    decreases i - j,
{
    if j < i {
        lemma_loaded(es, i, j + 1);
    }
}

/// The first control of `cs` named `name`.
pub fn find_control<'a, V>(cs: &'a Vec<UiControl<V>>, name: &str) -> (r: Option<&'a UiControl<V>>)
    ensures
        r matches Some(c) ==> control_in(cs@.map_values(|c: UiControl<V>| c.model()), name@) == Some(c.model()),
        r is None ==> control_in(cs@.map_values(|c: UiControl<V>| c.model()), name@) is None,
{
    let ghost ms = cs@.map_values(|c: UiControl<V>| c.model());
    assert(ms.skip(0) =~= ms);
    let mut i: usize = 0;
    while i < cs.len()
        invariant
            0 <= i <= cs.len(),
            ms == cs@.map_values(|c: UiControl<V>| c.model()),
            control_in(ms, name@) == control_in(ms.skip(i as int), name@),
        decreases cs.len() - i,
    {
        let c = &cs[i];
        let hit = match c {
            UiControl::Slider { name: n, .. } => str_eq(n.as_str(), name),
            UiControl::Checkbox { name: n, .. } => str_eq(n.as_str(), name),
            UiControl::Select { name: n, .. } => str_eq(n.as_str(), name),
            UiControl::Separator => false,
        };
        proof {
            assert(ms.skip(i as int)[0] == ms[i as int]);
            assert(ms.skip(i as int).drop_first() =~= ms.skip(i + 1));
        }
        if hit {
            return Some(c);
        }
        i = i + 1;
    }
    proof {
        assert(ms.skip(i as int).len() == 0);
    }
    None
}


/// The controls of a loaded control script, and what it knows of them.
pub struct ScriptState<V> {
    controls: Vec<UiControl<V>>,
    osc: Vec<OscSetting<V>>,
    index: ScriptIndex<V, V>,
}

impl<V: Copy> ScriptState<V> {
    /// The user-interface controls, in the order they are declared.
    pub closed spec fn controls_model(self) -> Seq<UiModel<V>> {
        self.controls@.map_values(|c: UiControl<V>| c.model())
    }

    /// The OSC controls the last load declared, in order.
    pub closed spec fn osc_model(self) -> Seq<OscModel<V>> {
        self.osc@.map_values(|o: OscSetting<V>| o.model())
    }

    /// Aliases, bypasses, modulations and references.
    pub closed spec fn index_view(self) -> ScriptIndex<V, V> {
        self.index
    }

    /// Nothing loaded.
    pub fn new() -> (r: Self)
        ensures
            r.controls_model() == Seq::<UiModel<V>>::empty(),
            r.osc_model() == Seq::<OscModel<V>>::empty(),
            r.index_view().aliases() == Map::<Seq<char>, Seq<char>>::empty(),
            r.index_view().bypassed() == Map::<Seq<char>, V>::empty(),
            r.index_view().modulations() == Map::<Seq<char>, Seq<Seq<char>>>::empty(),
            r.index_view().graph().entries() == Seq::<(String, Node<V>)>::empty(),
            r.index_view().graph().order_view() is None,
    {
        let r = ScriptState { controls: Vec::new(), osc: Vec::new(), index: ScriptIndex::new() };
        proof {
            assert(r.controls_model() =~= Seq::<UiModel<V>>::empty());
            assert(r.osc_model() =~= Seq::<OscModel<V>>::empty());
        }
        r
    }

    /// The user-interface controls, in the order they are declared.
    pub fn controls(&self) -> (r: &Vec<UiControl<V>>)
        ensures
            r@.map_values(|c: UiControl<V>| c.model()) == self.controls_model(),
    {
        &self.controls
    }

    /// The OSC controls the last load declared, in order.
    pub fn osc_settings(&self) -> (r: &Vec<OscSetting<V>>)
        ensures
            r@.map_values(|o: OscSetting<V>| o.model()) == self.osc_model(),
    {
        &self.osc
    }

    /// Aliases, bypasses, modulations and references.
    pub fn index(&self) -> (r: &ScriptIndex<V, V>)
        ensures
            *r == self.index_view(),
    {
        &self.index
    }

    /// The user-interface control named `name`.
    pub fn control(&self, name: &str) -> (r: Option<&UiControl<V>>)
        ensures
            r matches Some(c) ==> control_in(self.controls_model(), name@) == Some(c.model()),
            r is None ==> control_in(self.controls_model(), name@) is None,
    {
        find_control(&self.controls, name)
    }

    /// Loads the controls of a configuration, in order. Everything known
    /// before is cleared first, the values of the cache included. Each
    /// control registers its references, alias and bypass; then, if what
    /// it declares could be read, it is added: a user-interface control
    /// keeps the value it held before when that value is of its own kind
    /// and takes its default otherwise; an OSC control starts from the live
    /// value under its address in `osc_values`, or its default; a
    /// modulation adds its modulators to its source. The first entry that
    /// could not be read ends the load with its message: what came before
    /// it stays loaded, and no evaluation order is computed. Otherwise the
    /// evaluation order of the references is computed at the end.
    pub fn populate(&mut self, entries: &Vec<ScriptEntry<V>>, osc_values: &NamedMap<V>, cache: &mut EvalCache<V>) -> (r:
        Result<(), String>)
        requires
            distinct_ids(entries@),
        ensures
            ({
                let k = loaded(entries@);
                let reg = if k < entries.len() {
                    k + 1
                } else {
                    k
                };
                let g = final(self).index_view().graph().entries();
                &&& 0 <= k <= entries.len()
                &&& forall|i: int| 0 <= i < k ==> (#[trigger] entries@[i]).entry is Ok
                &&& (r is Ok <==> k == entries.len())
                &&& (r is Err <==> exists|i: int| 0 <= i < entries.len() && (#[trigger] entries@[i]).entry is Err)
                &&& (r matches Err(m) ==> (entries@[k].entry matches Err(msg) && m@ == msg@))
                &&& final(self).controls_model() == ui_spec(entries@, k, old(self).controls_model())
                &&& final(self).osc_model() == osc_spec(entries@, k, osc_values@)
                &&& final(self).index_view().aliases() == aliases_spec(entries@, reg)
                &&& final(self).index_view().bypassed() == bypass_spec(entries@, reg)
                &&& final(self).index_view().modulations() == mods_spec(entries@, k)
                &&& graph_of(g, entries@, reg)
                &&& (r is Err ==> final(self).index_view().graph().order_view() is None)
                &&& (r is Ok && has_eval_order(g) ==> (final(self).index_view().graph().order_view() matches Some(o)
                    && is_eval_order(g, o)))
                &&& (r is Ok && !has_eval_order(g) ==> final(self).index_view().graph().order_view() is None)
            }),
            final(cache)@ == Map::<Seq<char>, (u32, V)>::empty(),
    {
        let mut old_controls: Vec<UiControl<V>> = Vec::new();
        std::mem::swap(&mut old_controls, &mut self.controls);
        let ghost old_ms = old_controls@.map_values(|c: UiControl<V>| c.model());
        self.osc = Vec::new();
        self.index.clear();
        cache.clear();
        proof {
            assert(self.controls_model() =~= ui_spec(entries@, 0, old_ms));
            assert(self.osc_model() =~= osc_spec(entries@, 0, osc_values@));
            assert(entry_names(self.index.graph().entries()) =~= Seq::<Seq<char>>::empty());
        }
        let mut i: usize = 0;
        while i < entries.len()
            invariant
                0 <= i <= entries.len(),
                distinct_ids(entries@),
                old_ms == old(self).controls_model(),
                old_controls@.map_values(|c: UiControl<V>| c.model()) == old_ms,
                cache@ == Map::<Seq<char>, (u32, V)>::empty(),
                forall|t: int| 0 <= t < i ==> (#[trigger] entries@[t]).entry is Ok,
                self.controls_model() == ui_spec(entries@, i as int, old_ms),
                self.osc_model() == osc_spec(entries@, i as int, osc_values@),
                self.index.aliases() == aliases_spec(entries@, i as int),
                self.index.bypassed() == bypass_spec(entries@, i as int),
                self.index.modulations() == mods_spec(entries@, i as int),
                graph_of(self.index.graph().entries(), entries@, i as int),
                self.index.graph().order_view() is None,
            decreases entries.len() - i,
        {
            let e = &entries[i];
            let var: Option<&str> = match &e.var {
                Some(v) => Some(v.as_str()),
                None => None,
            };
            let ghost g0 = self.index.graph().entries();
            self.index.register(e.id.as_str(), &e.refs, var, e.bypass);
            proof {
                self.lemma_registered(entries@, i as int, g0);
            }
            match &e.entry {
                Err(m) => {
                    proof {
                        lemma_loaded(entries@, i as int, 0);
                    }
                    return Err(m.clone());
                },
                Ok(ce) => {
                    let ghost c0 = self.controls@;
                    let ghost o0 = self.osc@;
                    match ce {
                        ControlEntry::Slider { default } => {
                            let held = match find_control(&old_controls, e.id.as_str()) {
                                Some(UiControl::Slider { value, .. }) => Some(*value),
                                _ => None,
                            };
                            let value = retained(held, *default);
                            self.controls.push(UiControl::Slider { name: e.id.clone(), value });
                        },
                        ControlEntry::Checkbox { default } => {
                            let held = match find_control(&old_controls, e.id.as_str()) {
                                Some(UiControl::Checkbox { value, .. }) => Some(*value),
                                _ => None,
                            };
                            let value = retained(held, *default);
                            self.controls.push(UiControl::Checkbox { name: e.id.clone(), value });
                        },
                        ControlEntry::Select { options, default } => {
                            let held = match find_control(&old_controls, e.id.as_str()) {
                                Some(UiControl::Select { value, .. }) => Some(value.clone()),
                                _ => None,
                            };
                            let value = retained(held, default.clone());
                            self.controls.push(
                                UiControl::Select { name: e.id.clone(), value, options: copy_strings(options) },
                            );
                        },
                        ControlEntry::Separator => {
                            self.controls.push(UiControl::Separator);
                        },
                        ControlEntry::Osc { range, default } => {
                            let value = match osc_values.get(e.id.as_str()) {
                                Some(v) => *v,
                                None => *default,
                            };
                            self.osc.push(OscSetting { address: e.id.clone(), range: *range, default: *default, value });
                        },
                        ControlEntry::Modulation { source, modulators } => {
                            self.index.add_modulation(source.as_str(), modulators);
                        },
                        ControlEntry::Unsupported => {},
                    }
                    proof {
                        let n = i as int;
                        assert(ui_spec(entries@, n + 1, old_ms) == ui_spec(entries@, n, old_ms) + ui_item(entries@[n], old_ms));
                        assert(self.controls_model() =~= ui_spec(entries@, n + 1, old_ms)) by {
                            assert(c0.map_values(|c: UiControl<V>| c.model()) == ui_spec(entries@, n, old_ms));
                        }
                        assert(self.osc_model() =~= osc_spec(entries@, n + 1, osc_values@)) by {
                            assert(o0.map_values(|o: OscSetting<V>| o.model()) == osc_spec(entries@, n, osc_values@));
                        }
                    }
                },
            }
            i = i + 1;
        }
        self.index.build();
        proof {
            lemma_loaded(entries@, entries.len() as int, 0);
        }
        Ok(())
    }

    /// Registering entry `i` extends the aliases, bypasses and graph of the
    /// entries before it to those of the entries up to it.
    proof fn lemma_registered(self, es: Seq<ScriptEntry<V>>, i: int, g0: Seq<(String, Node<V>)>)
        requires
            0 <= i < es.len(),
            distinct_ids(es),
            graph_of(g0, es, i),
            ({
                let e = es[i];
                let g1 = self.index.graph().entries();
                &&& e.refs.names().len() == 0 ==> g1 == g0
                &&& e.refs.names().len() > 0 ==> (lookup(g1, e.id@) matches Some(node) && node_of_refs(
                    node@,
                    e.refs.names(),
                    text_map(e.refs@),
                ))
                &&& e.refs.names().len() > 0 ==> forall|k: Seq<char>| k != e.id@ ==> lookup(g1, k) == lookup(g0, k)
                &&& e.refs.names().len() > 0 ==> forall|k: Seq<char>|
                    entry_names(g1).contains(k) <==> (entry_names(g0).contains(k) || k == e.id@)
            }),
        ensures
            graph_of(self.index.graph().entries(), es, i + 1),
    {
        let g1 = self.index.graph().entries();
        let e = es[i];
        assert forall|k: Seq<char>|
            entry_names(g1).contains(k) <==> exists|t: int|
                0 <= t < i + 1 && (#[trigger] es[t]).id@ == k && es[t].refs.names().len() > 0 by {
            if entry_names(g1).contains(k) {
                if e.refs.names().len() > 0 && k == e.id@ {
                    assert(es[i].id@ == k);
                } else {
                    assert(entry_names(g0).contains(k));
                    let t = choose|t: int| 0 <= t < i && (#[trigger] es[t]).id@ == k && es[t].refs.names().len() > 0;
                    assert(es[t].id@ == k);
                }
            }
            if exists|t: int| 0 <= t < i + 1 && (#[trigger] es[t]).id@ == k && es[t].refs.names().len() > 0 {
                let t = choose|t: int| 0 <= t < i + 1 && (#[trigger] es[t]).id@ == k && es[t].refs.names().len() > 0;
                if t < i {
                    assert(entry_names(g0).contains(k));
                }
            }
        }
        assert forall|t: int|
            0 <= t < i + 1 && (#[trigger] es[t]).refs.names().len() > 0 implies (lookup(g1, es[t].id@) matches Some(
            node,
        ) && node_of_refs(node@, es[t].refs.names(), text_map(es[t].refs@))) by {
            if t < i && e.refs.names().len() > 0 {
                assert(es[t].id@ != es[i].id@);
            }
        }
    }
}

proof fn lemma_control_in_skip<V>(a: Seq<UiModel<V>>, b: Seq<UiModel<V>>, name: Seq<char>)
    requires
        forall|j: int| 0 <= j < a.len() ==> ui_name(#[trigger] a[j]) != Some(name),
    ensures
        control_in(a + b, name) == control_in(b, name),
    decreases a.len(),
{
    if a.len() > 0 {
        assert((a + b)[0] == a[0]);
        assert((a + b).drop_first() =~= a.drop_first() + b);
        assert forall|j: int| 0 <= j < a.drop_first().len() implies ui_name(#[trigger] a.drop_first()[j]) != Some(
            name,
        ) by {
            assert(a.drop_first()[j] == a[j + 1]);
        }
        lemma_control_in_skip(a.drop_first(), b, name);
    } else {
        assert(a + b =~= b);
    }
}

proof fn lemma_control_in_keep<V>(a: Seq<UiModel<V>>, b: Seq<UiModel<V>>, name: Seq<char>)
    requires
        control_in(a, name) is Some,
    ensures
        control_in(a + b, name) == control_in(a, name),
    decreases a.len(),
{
    assert((a + b)[0] == a[0]);
    if ui_name(a[0]) != Some(name) {
        assert((a + b).drop_first() =~= a.drop_first() + b);
        lemma_control_in_keep(a.drop_first(), b, name);
    }
}

/// Every named control of the first `n` entries carries the name of one
/// of them.
proof fn lemma_ui_spec_names<V>(es: Seq<ScriptEntry<V>>, n: int, old: Seq<UiModel<V>>)
    requires
        0 <= n <= es.len(),
    ensures
        forall|j: int|
            0 <= j < ui_spec(es, n, old).len() ==> (ui_name(#[trigger] ui_spec(es, n, old)[j]) matches Some(nm)
                ==> exists|t: int| 0 <= t < n && (#[trigger] es[t]).id@ == nm),
    decreases n,
{
    if n > 0 {
        lemma_ui_spec_names(es, n - 1, old);
        let a = ui_spec(es, n - 1, old);
        let item = ui_item(es[n - 1], old);
        assert forall|j: int|
            0 <= j < ui_spec(es, n, old).len() implies (ui_name(#[trigger] ui_spec(es, n, old)[j]) matches Some(nm)
            ==> exists|t: int| 0 <= t < n && (#[trigger] es[t]).id@ == nm) by {
            if j < a.len() {
                assert(ui_spec(es, n, old)[j] == a[j]);
            } else {
                assert(ui_spec(es, n, old)[j] == item[j - a.len()]);
                assert(es[n - 1].id@ == es[n - 1].id@);
            }
        }
    }
}

/// The control named by entry `i` among the controls of the first `n`
/// entries is the one that entry adds.
proof fn lemma_loaded_control<V>(es: Seq<ScriptEntry<V>>, n: int, old: Seq<UiModel<V>>, i: int)
    requires
        0 <= i < n <= es.len(),
        distinct_ids(es),
    ensures
        control_in(ui_spec(es, n, old), es[i].id@) == control_in(ui_item(es[i], old), es[i].id@),
    decreases n,
{
    let id = es[i].id@;
    if n == i + 1 {
        lemma_ui_spec_names(es, i, old);
        let a = ui_spec(es, i, old);
        assert forall|j: int| 0 <= j < a.len() implies ui_name(#[trigger] a[j]) != Some(id) by {
            if ui_name(a[j]) == Some(id) {
                let t = choose|t: int| 0 <= t < i && (#[trigger] es[t]).id@ == id;
                assert(es[t].id@ != es[i].id@);
            }
        }
        lemma_control_in_skip(a, ui_item(es[i], old), id);
    } else {
        lemma_loaded_control(es, n - 1, old, i);
        if control_in(ui_item(es[i], old), id) is Some {
            lemma_control_in_keep(ui_spec(es, n - 1, old), ui_item(es[n - 1], old), id);
        } else {
            let a = ui_spec(es, n - 1, old);
            let item = ui_item(es[n - 1], old);
            lemma_control_in_none(a, id);
            lemma_control_in_skip(a, item, id);
            assert(es[n - 1].id@ != id);
            assert forall|j: int| 0 <= j < item.len() implies ui_name(#[trigger] item[j]) != Some(id) by {}
            lemma_control_in_skip(item, Seq::empty(), id);
            assert(item + Seq::<UiModel<V>>::empty() =~= item);
        }
    }
}

proof fn lemma_control_in_none<V>(a: Seq<UiModel<V>>, name: Seq<char>)
    requires
        control_in(a, name) is None,
    ensures
        forall|j: int| 0 <= j < a.len() ==> ui_name(#[trigger] a[j]) != Some(name),
    decreases a.len(),
{
    if a.len() > 0 {
        lemma_control_in_none(a.drop_first(), name);
        assert forall|j: int| 0 <= j < a.len() implies ui_name(#[trigger] a[j]) != Some(name) by {
            if j > 0 {
                assert(a[j] == a.drop_first()[j - 1]);
            }
        }
    }
}

/// On a reload, a checkbox keeps the boolean it held.
pub proof fn law_reload_keeps_checkbox<V>(es: Seq<ScriptEntry<V>>, n: int, old: Seq<UiModel<V>>, i: int, default: bool, b: bool)
    requires
        0 <= i < n <= es.len(),
        distinct_ids(es),
        es[i].entry == Ok::<ControlEntry<V>, String>(ControlEntry::Checkbox { default }),
        value_in(old, es[i].id@) == Some(ValueModel::<V>::Bool(b)),
    ensures
        control_in(ui_spec(es, n, old), es[i].id@) == Some(UiModel::<V>::Checkbox(es[i].id@, b)),
{
    lemma_loaded_control(es, n, old, i);
}

/// On a reload, a slider keeps the value it held.
pub proof fn law_reload_keeps_slider<V>(es: Seq<ScriptEntry<V>>, n: int, old: Seq<UiModel<V>>, i: int, default: V, v: V)
    requires
        0 <= i < n <= es.len(),
        distinct_ids(es),
        es[i].entry == Ok::<ControlEntry<V>, String>(ControlEntry::Slider { default }),
        value_in(old, es[i].id@) == Some(ValueModel::Float(v)),
    ensures
        control_in(ui_spec(es, n, old), es[i].id@) == Some(UiModel::Slider(es[i].id@, v)),
{
    lemma_loaded_control(es, n, old, i);
}

/// On a reload, a select keeps the option it held, with its new options.
pub proof fn law_reload_keeps_select<V>(
    es: Seq<ScriptEntry<V>>,
    n: int,
    old: Seq<UiModel<V>>,
    i: int,
    options: Vec<String>,
    default: String,
    t: Seq<char>,
)
    requires
        0 <= i < n <= es.len(),
        distinct_ids(es),
        es[i].entry == Ok::<ControlEntry<V>, String>(ControlEntry::Select { options, default }),
        value_in(old, es[i].id@) == Some(ValueModel::<V>::Str(t)),
    ensures
        control_in(ui_spec(es, n, old), es[i].id@) == Some(UiModel::<V>::Select(es[i].id@, t, str_views(options@))),
{
    lemma_loaded_control(es, n, old, i);
}

/// A control that held nothing of its kind takes its default: a slider,
/// a checkbox or a select with no value of its own kind under its name.
pub proof fn law_reload_takes_default<V>(es: Seq<ScriptEntry<V>>, n: int, old: Seq<UiModel<V>>, i: int)
    requires
        0 <= i < n <= es.len(),
        distinct_ids(es),
    ensures
        es[i].entry matches Ok(ControlEntry::Slider { default }) ==> (!(value_in(old, es[i].id@) matches Some(
            ValueModel::Float(_),
        )) ==> control_in(ui_spec(es, n, old), es[i].id@) == Some(UiModel::Slider(es[i].id@, default))),
        es[i].entry matches Ok(ControlEntry::Checkbox { default }) ==> (!(value_in(old, es[i].id@) matches Some(
            ValueModel::Bool(_),
        )) ==> control_in(ui_spec(es, n, old), es[i].id@) == Some(UiModel::<V>::Checkbox(es[i].id@, default))),
        es[i].entry matches Ok(ControlEntry::Select { options, default }) ==> (!(value_in(old, es[i].id@) matches Some(
            ValueModel::Str(_),
        )) ==> control_in(ui_spec(es, n, old), es[i].id@) == Some(
            UiModel::<V>::Select(es[i].id@, default@, str_views(options@)),
        )),
{
    lemma_loaded_control(es, n, old, i);
}
} // verus!
