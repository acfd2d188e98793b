use lattice_core::framework::control_script::eval_cache::EvalCache;
use lattice_core::framework::control_script::hot_params::{find_hot_params, try_find_hot_params, ConfigValue};
use lattice_core::framework::control_script::retain::retained;
use lattice_core::framework::control_script::keypath::{keypath, keypath_index, KeypathIndex};
use lattice_core::framework::control_script::script_index::{node_from_refs, GetPlan, ScriptIndex};
use lattice_core::framework::decimal::{parse_usize, usize_to_string};
use lattice_core::framework::named_map::NamedMap;
use lattice_core::framework::osc_receiver::CallbackRegistry;
use lattice_core::framework::param_mod::{Node, ParamValue};

fn s(x: &str) -> ConfigValue {
    ConfigValue::String(x.to_string())
}

fn map(entries: Vec<(&str, ConfigValue)>) -> ConfigValue {
    ConfigValue::Mapping(entries.into_iter().map(|(k, v)| (Some(k.to_string()), v)).collect())
}

#[test]
fn decimal_numerals() {
    assert_eq!(usize_to_string(0), "0");
    assert_eq!(usize_to_string(7), "7");
    assert_eq!(usize_to_string(1024), "1024");
    assert_eq!(usize_to_string(usize::MAX), usize::MAX.to_string());
    assert_eq!(parse_usize("42"), Some(42));
    assert_eq!(parse_usize("+42"), Some(42));
    assert_eq!(parse_usize("007"), Some(7));
    assert_eq!(parse_usize(""), None);
    assert_eq!(parse_usize("+"), None);
    assert_eq!(parse_usize("-1"), None);
    assert_eq!(parse_usize("4x"), None);
    assert_eq!(parse_usize(&usize::MAX.to_string()), Some(usize::MAX));
    assert_eq!(parse_usize("99999999999999999999999"), None);
    for text in ["12", "+3", "", "1a", "18446744073709551616"] {
        assert_eq!(parse_usize(text), text.parse::<usize>().ok());
    }
}

#[test]
fn keypaths() {
    assert_eq!(keypath("breakpoints", 2, "value"), "breakpoints.2.value");
    assert_eq!(keypath_index("breakpoints.2.value"), KeypathIndex::Index(2));
    assert_eq!(keypath_index("breakpoints.x.value"), KeypathIndex::NotAnIndex);
    assert_eq!(keypath_index("breakpoints.2"), KeypathIndex::Unrecognized);
    assert_eq!(keypath_index("a.1.b.c"), KeypathIndex::Index(1));
}

#[test]
fn hot_params_top_level_and_in_lists() {
    let config = map(vec![
        ("type", s("automate")),
        ("phase", s("$slider")),
        ("beats", s("4")),
        (
            "breakpoints",
            ConfigValue::Sequence(vec![
                map(vec![("position", ConfigValue::Other), ("value", s("$lfo"))]),
                s("$ignored"),
                map(vec![("value", s("$env")), ("nested", map(vec![("deep", s("$skipped"))]))]),
            ]),
        ),
    ]);
    let refs = find_hot_params(&config);
    assert_eq!(try_find_hot_params(&config).unwrap().len(), 3);
    assert_eq!(refs.len(), 3);
    assert_eq!(refs.get("phase"), Some(&"slider".to_string()));
    assert_eq!(refs.get("breakpoints.0.value"), Some(&"lfo".to_string()));
    assert_eq!(refs.get("breakpoints.2.value"), Some(&"env".to_string()));
    assert!(!refs.contains_key("type"));
}

#[test]
fn hot_params_of_non_mapping_is_empty() {
    assert_eq!(find_hot_params(&s("$x")).len(), 0);
    assert_eq!(find_hot_params(&ConfigValue::Other).len(), 0);
}

#[test]
fn hot_params_refuse_non_string_keys() {
    let config = ConfigValue::Mapping(vec![(None, s("$x"))]);
    assert!(try_find_hot_params(&config).is_none());
    let nested = map(vec![("list", ConfigValue::Sequence(vec![ConfigValue::Mapping(vec![(None, ConfigValue::Other)])]))]);
    assert!(try_find_hot_params(&nested).is_none());
    // a mapping that is not searched may have any keys
    let unsearched = map(vec![("inner", ConfigValue::Mapping(vec![(None, s("$x"))]))]);
    assert_eq!(find_hot_params(&unsearched).len(), 0);
}

#[test]
fn nodes_from_references() {
    let mut refs = NamedMap::new();
    refs.insert("symmetry", "t1".to_string());
    let node: Node<f32> = node_from_refs(&refs);
    assert_eq!(node.len(), 1);
    assert_eq!(node[0].0, "symmetry");
    assert!(matches!(&node[0].1, ParamValue::Hot(t) if t == "t1"));
}

fn refs_of(pairs: &[(&str, &str)]) -> NamedMap<String> {
    let mut refs = NamedMap::new();
    for (k, v) in pairs {
        refs.insert(k, v.to_string());
    }
    refs
}

#[test]
fn plan_follows_aliases_bypasses_and_dependencies() {
    let mut index: ScriptIndex<f32, f32> = ScriptIndex::new();
    index.register("slider", &refs_of(&[]), Some("s"), None);
    index.register("triangle", &refs_of(&[("phase", "slider")]), None, None);
    index.register("fixed", &refs_of(&[]), None, Some(0.25));
    index.add_modulation("triangle", &vec!["effect".to_string()]);
    index.add_modulation("triangle", &vec!["other".to_string()]);
    index.build();

    let cache: EvalCache<f32> = EvalCache::new();
    match index.plan_get("triangle", &cache, 0) {
        GetPlan::Evaluate { name, dependencies, modulators } => {
            assert_eq!(name, "triangle");
            assert_eq!(dependencies, vec!["slider".to_string()]);
            assert_eq!(modulators, vec!["effect".to_string(), "other".to_string()]);
        }
        GetPlan::Bypass(_) => panic!("not bypassed"),
    }
    match index.plan_get("s", &cache, 0) {
        GetPlan::Evaluate { name, dependencies, modulators } => {
            assert_eq!(name, "slider");
            assert!(dependencies.is_empty());
            assert!(modulators.is_empty());
        }
        GetPlan::Bypass(_) => panic!("not bypassed"),
    }
    assert!(matches!(index.plan_get("fixed", &cache, 0), GetPlan::Bypass(v) if v == 0.25));

    let mut cache: EvalCache<f32> = EvalCache::new();
    cache.store("slider", 3, 0.5);
    match index.plan_get("triangle", &cache, 3) {
        GetPlan::Evaluate { dependencies, .. } => assert!(dependencies.is_empty()),
        GetPlan::Bypass(_) => panic!("not bypassed"),
    }

    index.clear();
    assert!(index.dep_graph().order().is_none());
}

#[test]
fn osc_callbacks_run_address_then_wildcard() {
    let mut registry = CallbackRegistry::new();
    let a = registry.register_callback("/transport");
    let b = registry.register_callback("*");
    let c = registry.register_callback("/transport");
    let d = registry.register_callback("/other");
    assert_eq!((a, b, c, d), (0, 1, 2, 3));
    assert_eq!(registry.handlers_for("/transport"), vec![0, 2, 1]);
    assert_eq!(registry.handlers_for("/other"), vec![3, 1]);
    assert_eq!(registry.handlers_for("/none"), vec![1]);
    assert_eq!(registry.handlers_for("*"), vec![1, 1]);
}

#[test]
fn keypath_index_reads_back_the_item() {
    for i in [0usize, 1, 9, 10, 123, usize::MAX] {
        assert_eq!(keypath_index(&keypath("breakpoints", i, "value")), KeypathIndex::Index(i));
        assert_eq!(parse_usize(&usize_to_string(i)), Some(i));
    }
}

#[test]
fn reload_keeps_held_values() {
    assert_eq!(retained(Some(0.25f32), 0.5), 0.25);
    assert_eq!(retained(None, 0.5f32), 0.5);
    assert_eq!(retained(Some(true), false), true);
    assert_eq!(retained(None, "b".to_string()), "b");
    assert_eq!(retained(Some("a".to_string()), "b".to_string()), "a");
}
