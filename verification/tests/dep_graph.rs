use lattice_core::framework::control::eval_cache::EvalCache as HubCache;
use lattice_core::framework::control_hub::dep_graph::DepGraph;
use lattice_core::framework::control_script::dep_graph::DepGraph as ScriptGraph;
use lattice_core::framework::control_script::eval_cache::EvalCache;
use lattice_core::framework::control_script::run_plan::{dependencies_to_run, resolve_name};
use lattice_core::framework::dep_order::eval_order;
use lattice_core::framework::named_map::NamedMap;
use lattice_core::framework::param_mod::{Node, ParamValue};

fn hot(param: &str, target: &str) -> (String, ParamValue<f32>) {
    (param.to_string(), ParamValue::Hot(target.to_string()))
}

fn cold(param: &str, v: f32) -> (String, ParamValue<f32>) {
    (param.to_string(), ParamValue::Cold(v))
}

fn position(order: &[String], name: &str) -> usize {
    order.iter().position(|x| x == name).unwrap()
}

#[test]
fn eval_order_puts_dependencies_first() {
    let g: Vec<(String, Node<f32>)> = vec![
        ("effect".to_string(), vec![hot("symmetry", "t1"), cold("gain", 1.0)]),
        ("t1".to_string(), vec![hot("phase", "slider")]),
    ];
    let order = eval_order(&g).unwrap();
    assert_eq!(order.len(), 3);
    assert!(position(&order, "slider") < position(&order, "t1"));
    assert!(position(&order, "t1") < position(&order, "effect"));
}

#[test]
fn eval_order_refuses_cycles() {
    let g: Vec<(String, Node<f32>)> = vec![
        ("a".to_string(), vec![hot("x", "b")]),
        ("b".to_string(), vec![hot("y", "a")]),
    ];
    assert!(eval_order(&g).is_none());
}

#[test]
fn eval_order_of_cold_nodes_is_empty() {
    let g: Vec<(String, Node<f32>)> = vec![("a".to_string(), vec![cold("x", 0.5)])];
    assert_eq!(eval_order(&g), Some(vec![]));
}

#[test]
fn hub_graph_marks_dependencies() {
    let mut g: DepGraph<f32> = DepGraph::new();
    g.insert_node("t2", vec![hot("symmetry", "t1")]);
    assert!(!g.has_dependents("t2"));
    g.build_graph();
    assert!(g.has_dependents("t2"));
    assert!(!g.has_dependents("t1"));
    assert!(g.is_dependency("t1"));
    assert!(g.is_dependency("t2"));
    assert!(!g.is_dependency("other"));
    assert_eq!(g.order().clone(), Some(vec!["t1".to_string(), "t2".to_string()]));
    assert!(g.node("t2").is_some());
    g.clear();
    assert!(g.order().is_none());
    assert!(g.graph().is_empty());
    // Dependencies stay marked after clearing.
    assert!(g.is_dependency("t1"));
}

#[test]
fn hub_graph_with_cycle_has_no_order() {
    let mut g: DepGraph<f32> = DepGraph::new();
    g.insert_node("a", vec![hot("x", "b")]);
    g.insert_node("b", vec![hot("y", "a")]);
    g.build_graph();
    assert!(g.order().is_none());
    assert!(!g.is_dependency("a"));
}

#[test]
fn script_graph_replaces_nodes() {
    let mut g: ScriptGraph<f32> = ScriptGraph::new();
    g.insert_node("t2", vec![hot("symmetry", "t1")]);
    g.insert_node("t2", vec![cold("symmetry", 0.5)]);
    assert_eq!(g.graph().len(), 1);
    g.build_graph();
    assert_eq!(g.order().clone(), Some(vec![]));
}

#[test]
fn script_cache_read_after_write() {
    let mut cache: EvalCache<f32> = EvalCache::new();
    assert!(!cache.has("a", 3));
    cache.store("a", 3, 0.25);
    assert!(cache.has("a", 3));
    assert!(!cache.has("a", 4));
    assert_eq!(cache.get("a"), Some((3, 0.25)));
    cache.clear();
    assert_eq!(cache.get("a"), None);
}

#[test]
fn hub_cache_is_per_frame() {
    let mut cache: HubCache<f32> = HubCache::new();
    cache.store("a", 3, 0.5);
    assert_eq!(cache.get("a", 3), Some(0.5));
    assert_eq!(cache.get("a", 4), None);
    assert!(cache.has("a", 3));
    cache.clear();
    assert!(!cache.has("a", 3));
}

#[test]
fn dependencies_run_before_target_unless_cached() {
    let order = vec!["slider".to_string(), "t1".to_string(), "effect".to_string()];
    let mut cache: EvalCache<f32> = EvalCache::new();
    cache.store("slider", 7, 0.5);
    assert_eq!(dependencies_to_run(&order, "effect", &cache, 7), vec!["t1".to_string()]);
    assert_eq!(dependencies_to_run(&order, "effect", &cache, 8), vec!["slider".to_string(), "t1".to_string()]);
    assert_eq!(dependencies_to_run(&order, "slider", &cache, 8), Vec::<String>::new());
    assert_eq!(dependencies_to_run(&order, "missing", &cache, 7).len(), 2);
}

#[test]
fn names_resolve_through_aliases() {
    let mut aliases: NamedMap<String> = NamedMap::new();
    aliases.insert("a", "slider_1".to_string());
    assert_eq!(resolve_name(&aliases, "a"), "slider_1");
    assert_eq!(resolve_name(&aliases, "b"), "b");
}

#[test]
fn named_map_insert_get_remove() {
    let mut m: NamedMap<u32> = NamedMap::new();
    assert!(m.is_empty());
    m.insert("x", 1);
    m.insert("y", 2);
    m.insert("x", 3);
    assert_eq!(m.len(), 2);
    assert_eq!(m.get("x"), Some(&3));
    assert!(m.contains_key("y"));
    m.remove("y");
    assert!(!m.contains_key("y"));
    m.clear();
    assert_eq!(m.len(), 0);
}
