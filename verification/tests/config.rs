use lattice_core::framework::animate::{ConstrainMethod, Mode, Shape};
use lattice_core::framework::control::config::{
    default_clamp_string, default_easing, default_false, default_iterations, default_mode,
    default_none_string, default_shape, parse_disabled_expression, ControlType,
};
use lattice_core::framework::control::param_mod::warn_for;
use lattice_core::framework::control::ui_controls::select_index;
use lattice_core::framework::control_script::config::{default_ramp, ControlType as ScriptControlType};
use lattice_core::framework::disabled::{Condition, ControlLookup, DisabledSyntax};
use lattice_core::framework::easing::EasingName;
use lattice_core::framework::effects::Operator;
use lattice_core::framework::named_map::NamedMap;
use lattice_core::framework::param_mod::ParamValue;

#[test]
fn defaults() {
    assert_eq!(default_iterations(), 1);
    assert_eq!(default_mode(), "loop");
    assert_eq!(default_easing(), "linear");
    assert_eq!(default_shape(), "sine");
    assert_eq!(default_none_string(), "none");
    assert_eq!(default_clamp_string(), "clamp");
    assert!(!default_false());
    assert_eq!(default_ramp(), "linear");
}

#[test]
fn control_type_names_round_trip() {
    let all = [
        ControlType::Slider,
        ControlType::Checkbox,
        ControlType::Select,
        ControlType::Separator,
        ControlType::Midi,
        ControlType::Osc,
        ControlType::Audio,
        ControlType::Triangle,
        ControlType::Automate,
        ControlType::Random,
        ControlType::RandomSlewed,
        ControlType::Modulation,
        ControlType::Effects,
    ];
    for t in all {
        assert_eq!(ControlType::from_name(&t.name()), Some(t));
    }
    assert_eq!(ControlType::from_name("mod"), Some(ControlType::Modulation));
    assert_eq!(ControlType::from_name("effect"), Some(ControlType::Effects));
    assert_eq!(ControlType::from_name("Slider"), None);
    assert_eq!(ControlType::from_name("lerp_abs"), None);
    assert_eq!(ScriptControlType::from_name("lerp_abs"), Some(ScriptControlType::LerpAbs));
    assert_eq!(ScriptControlType::from_name("r_ramp_rel"), Some(ScriptControlType::RRampRel));
    assert_eq!(ScriptControlType::from_name("midi"), None);
    assert_eq!(ScriptControlType::Triangle.name(), "triangle");
}

#[test]
fn shapes_ignore_case() {
    assert_eq!(Shape::parse("Sine"), Some(Shape::Sine));
    assert_eq!(Shape::parse("TRIANGLE"), Some(Shape::Triangle));
    assert_eq!(Shape::parse("square"), Some(Shape::Square));
    assert_eq!(Shape::parse("saw"), None);
    assert_eq!(Shape::from_str("sQuArE"), Shape::Square);
    assert_eq!(ConstrainMethod::parse("Clamp"), Some(ConstrainMethod::Clamp));
    assert_eq!(ConstrainMethod::parse("none"), Some(ConstrainMethod::Unconstrained));
    assert_eq!(ConstrainMethod::parse("fold"), Some(ConstrainMethod::Fold));
    assert_eq!(ConstrainMethod::parse("WRAP"), Some(ConstrainMethod::Wrap));
    assert_eq!(ConstrainMethod::parse("mirror"), None);
    assert!(Mode::Loop != Mode::Once);
}

#[test]
fn operators_parse_exactly() {
    assert_eq!("add".parse::<Operator>(), Ok(Operator::Add));
    assert_eq!(Operator::parse("mult"), Ok(Operator::Mult));
    assert_eq!(Operator::parse("Add"), Err("No op named Add".to_string()));
}

#[test]
fn references_start_with_dollar() {
    match ParamValue::<f32>::from_reference("$t1") {
        Ok(ParamValue::Hot(name)) => assert_eq!(name, "t1"),
        _ => panic!("expected a reference"),
    }
    match ParamValue::<f32>::from_reference("t1") {
        Err(m) => assert_eq!(m, "Expected number or string starting with '$', got 't1'"),
        _ => panic!("expected an error"),
    }
    assert!(ParamValue::<f32>::from_reference("").is_err());
    assert!(ParamValue::<f32>::Hot("x".to_string()).is_hot());
    assert_eq!(*ParamValue::Cold(0.5f32).as_cold(), 0.5);
}

#[test]
fn warnings_name_the_field() {
    assert_eq!(warn_for("Hysteresis", "gain"), "Hysteresis does not support field: gain");
}

fn lookup(strings: &[(&str, &str)], bools: &[(&str, bool)]) -> ControlLookup {
    let mut s = NamedMap::new();
    for (k, v) in strings {
        s.insert(k, v.to_string());
    }
    let mut b = NamedMap::new();
    for (k, v) in bools {
        b.insert(k, *v);
    }
    ControlLookup { strings: s, bools: b }
}

#[test]
fn disabled_blank_is_none() {
    assert!(parse_disabled_expression("").unwrap().is_none());
    assert!(parse_disabled_expression("   ").unwrap().is_none());
}

#[test]
fn disabled_or_of_ands() {
    let e = parse_disabled_expression("mode != advanced || !enabled && level == high").unwrap().unwrap();
    assert_eq!(e.groups.len(), 2);
    assert_eq!(e.groups[1].len(), 2);
    let on = lookup(&[("mode", "advanced"), ("level", "high")], &[("enabled", false)]);
    assert!(e.is_disabled(&on));
    let off = lookup(&[("mode", "advanced"), ("level", "high")], &[("enabled", true)]);
    assert!(!e.is_disabled(&off));
    let simple = lookup(&[("mode", "simple")], &[("enabled", true)]);
    assert!(e.is_disabled(&simple));
}

#[test]
fn disabled_missing_values_are_empty_and_false() {
    let e = parse_disabled_expression("flag || name == ").unwrap().unwrap();
    assert!(e.is_disabled(&lookup(&[], &[])));
    let e = parse_disabled_expression("flag").unwrap().unwrap();
    assert!(!e.is_disabled(&lookup(&[], &[])));
}

#[test]
fn disabled_malformed_condition() {
    match parse_disabled_expression("a == b == c") {
        Err(m) => assert_eq!(m, "Invalid condition format: a == b == c"),
        Ok(_) => panic!("expected an error"),
    }
    match parse_disabled_expression("x || !a != b != c") {
        Err(m) => assert_eq!(m, "Invalid condition format: a != b != c"),
        Ok(_) => panic!("expected an error"),
    }
}

#[test]
fn disabled_negation() {
    let e = parse_disabled_expression("!!flag").unwrap().unwrap();
    assert!(e.is_disabled(&lookup(&[], &[("flag", true)])));
    match &e.groups[0][0] {
        Condition::Not(inner) => assert!(matches!(**inner, Condition::Not(_))),
        _ => panic!("expected a negation"),
    }
}

#[test]
fn disabled_verbal_syntax() {
    let syn = DisabledSyntax::verbal();
    let e = lattice_core::framework::disabled::parse_disabled_expression(&syn, "bar is not c and not qux")
        .unwrap()
        .unwrap();
    assert!(e.is_disabled(&lookup(&[("bar", "a")], &[("qux", false)])));
    assert!(!e.is_disabled(&lookup(&[("bar", "c")], &[("qux", false)])));
}

#[test]
fn disabled_negation_flips_every_condition() {
    let on = lookup(&[("mode", "a")], &[("flag", true)]);
    for cond in ["flag", "mode == a", "mode != a", "other", "  flag  "] {
        let plain = parse_disabled_expression(cond).unwrap().unwrap();
        let negated = parse_disabled_expression(&format!("!{}", cond)).unwrap().unwrap();
        assert_eq!(negated.is_disabled(&on), !plain.is_disabled(&on));
    }
}

#[test]
fn easing_names() {
    assert_eq!(EasingName::from_name("cubic_ease_in_out"), Some(EasingName::CubicEaseInOut));
    assert_eq!(EasingName::from_name("sigmoid"), Some(EasingName::Sigmoid));
    assert_eq!(EasingName::from_name("bounce"), None);
    assert_eq!(EasingName::unary_from_name("linear"), Some(EasingName::Linear));
    assert_eq!(EasingName::unary_from_name("exponential"), None);
    assert!(EasingName::Exponential.takes_shape());
    assert!(!EasingName::Logarithmic.takes_shape());
    assert_eq!(EasingName::SineEaseOut.name(), "sine_ease_out");
}

#[test]
fn select_positions() {
    let options = vec!["low".to_string(), "mid".to_string(), "high".to_string(), "mid".to_string()];
    assert_eq!(select_index(&options, "mid"), 1);
    assert_eq!(select_index(&options, "high"), 2);
    assert_eq!(select_index(&options, "none"), 0);
    assert_eq!(select_index(&[].to_vec(), "x"), 0);
}
