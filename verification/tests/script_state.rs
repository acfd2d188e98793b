use lattice_core::framework::control_script::eval_cache::EvalCache;
use lattice_core::framework::control_script::script_index::GetPlan;
use lattice_core::framework::control_script::script_state::{
    ControlEntry, OscSetting, ScriptEntry, ScriptState, UiControl,
};
use lattice_core::framework::named_map::NamedMap;

fn entry(id: &str, entry: Result<ControlEntry<f32>, String>) -> ScriptEntry<f32> {
    ScriptEntry { id: id.to_string(), refs: NamedMap::new(), var: None, bypass: None, entry }
}

fn slider(id: &str, default: f32) -> ScriptEntry<f32> {
    entry(id, Ok(ControlEntry::Slider { default }))
}

fn names(state: &ScriptState<f32>) -> Vec<String> {
    state
        .controls()
        .iter()
        .map(|c| match c {
            UiControl::Slider { name, .. } => format!("slider:{}", name),
            UiControl::Checkbox { name, .. } => format!("checkbox:{}", name),
            UiControl::Select { name, .. } => format!("select:{}", name),
            UiControl::Separator => "separator".to_string(),
        })
        .collect()
}

fn slider_value(state: &ScriptState<f32>, name: &str) -> Option<f32> {
    match state.control(name) {
        Some(UiControl::Slider { value, .. }) => Some(*value),
        _ => None,
    }
}

#[test]
fn populate_declares_controls_in_order() {
    let mut state: ScriptState<f32> = ScriptState::new();
    let mut cache: EvalCache<f32> = EvalCache::new();
    cache.store("stale", 3, 1.0);
    let entries = vec![
        slider("a", 0.5),
        entry("b", Ok(ControlEntry::Checkbox { default: true })),
        entry("sep", Ok(ControlEntry::Separator)),
        entry(
            "c",
            Ok(ControlEntry::Select { options: vec!["x".to_string(), "y".to_string()], default: "y".to_string() }),
        ),
        entry("d", Ok(ControlEntry::Osc { range: (0.0, 2.0), default: 0.2 })),
        entry(
            "m",
            Ok(ControlEntry::Modulation { source: "a".to_string(), modulators: vec!["b".to_string()] }),
        ),
        entry("e", Ok(ControlEntry::Unsupported)),
    ];
    let mut live = NamedMap::new();
    live.insert("d", 0.7f32);
    assert_eq!(state.populate(&entries, &live, &mut cache), Ok(()));
    assert_eq!(names(&state), vec!["slider:a", "checkbox:b", "separator", "select:c"]);
    assert_eq!(slider_value(&state, "a"), Some(0.5));
    assert!(matches!(state.control("c"), Some(UiControl::Select { value, options, .. })
        if value == "y" && options.len() == 2));
    assert!(state.control("e").is_none());
    let osc: &Vec<OscSetting<f32>> = state.osc_settings();
    assert_eq!(osc.len(), 1);
    assert_eq!(osc[0].address, "d");
    assert_eq!(osc[0].range, (0.0, 2.0));
    assert_eq!(osc[0].default, 0.2);
    assert_eq!(osc[0].value, 0.7);
    assert!(!cache.has("stale", 3));
    match state.index().plan_get("a", &cache, 0) {
        GetPlan::Evaluate { name, dependencies, modulators } => {
            assert_eq!(name, "a");
            assert!(dependencies.is_empty());
            assert_eq!(modulators, vec!["b".to_string()]);
        }
        GetPlan::Bypass(_) => panic!("not bypassed"),
    }
}

#[test]
fn reload_keeps_values_of_the_same_kind() {
    let mut state: ScriptState<f32> = ScriptState::new();
    let mut cache: EvalCache<f32> = EvalCache::new();
    let live = NamedMap::new();
    let first = vec![slider("a", 0.5), slider("b", 0.1)];
    assert_eq!(state.populate(&first, &live, &mut cache), Ok(()));
    let second = vec![
        slider("a", 0.9),
        entry("b", Ok(ControlEntry::Checkbox { default: true })),
        slider("n", 0.3),
    ];
    assert_eq!(state.populate(&second, &live, &mut cache), Ok(()));
    assert_eq!(slider_value(&state, "a"), Some(0.5));
    assert!(matches!(state.control("b"), Some(UiControl::Checkbox { value: true, .. })));
    assert_eq!(slider_value(&state, "n"), Some(0.3));
    assert_eq!(names(&state), vec!["slider:a", "checkbox:b", "slider:n"]);
}

#[test]
fn populate_stops_at_the_first_unreadable_control() {
    let mut state: ScriptState<f32> = ScriptState::new();
    let mut cache: EvalCache<f32> = EvalCache::new();
    let live = NamedMap::new();
    assert_eq!(state.populate(&vec![slider("old", 1.0)], &live, &mut cache), Ok(()));
    let mut bad = entry("bad", Err("missing field `options`".to_string()));
    bad.var = Some("alias".to_string());
    bad.bypass = Some(0.25);
    let entries = vec![slider("a", 0.5), bad, slider("c", 0.1)];
    assert_eq!(state.populate(&entries, &live, &mut cache), Err("missing field `options`".to_string()));
    assert_eq!(names(&state), vec!["slider:a"]);
    assert!(state.control("old").is_none());
    assert!(state.control("c").is_none());
    // the failing control's alias and bypass were registered before it failed
    assert!(matches!(state.index().plan_get("alias", &cache, 0), GetPlan::Bypass(v) if v == 0.25));
}
