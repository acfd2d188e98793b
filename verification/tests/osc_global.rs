use lattice_core::config::{MIDI_CLOCK_PORT, MIDI_CONTROL_IN_PORT, MIDI_CONTROL_OUT_PORT};
use lattice_core::framework::control::osc_controls::{address_key, check_address};
use lattice_core::framework::global::{
    midi_clock_port, midi_control_in_port, midi_control_out_port, set_midi_clock_port,
    set_midi_control_in_port, set_midi_control_out_port, Global,
};
use lattice_core::framework::osc::validate_address;
use lattice_core::framework::named_map::NamedMap;
use lattice_core::framework::serialization::{merge_saved_values, ImageIndex, ImageIndexItem};

#[test]
fn osc_addresses() {
    assert!(validate_address("/transport"));
    assert!(!validate_address("transport"));
    assert!(!validate_address(""));
    check_address("slider");
    check_address("slider/x");
    assert_eq!(address_key("//slider/x"), "slider/x");
    assert_eq!(address_key("slider"), "slider");
    assert_eq!(address_key("///"), "");
}

#[test]
fn global_ports() {
    let mut g = Global::default();
    assert_eq!(midi_clock_port(&g), MIDI_CLOCK_PORT);
    assert_eq!(midi_control_in_port(&g), MIDI_CONTROL_IN_PORT);
    assert_eq!(midi_control_out_port(&g), MIDI_CONTROL_OUT_PORT);
    set_midi_clock_port(&mut g, "Clock In".to_string());
    set_midi_control_in_port(&mut g, "Ctl In".to_string());
    set_midi_control_out_port(&mut g, "Ctl Out".to_string());
    assert_eq!(midi_clock_port(&g), "Clock In");
    assert_eq!(midi_control_in_port(&g), "Ctl In");
    assert_eq!(midi_control_out_port(&g), "Ctl Out");
}

#[test]
fn image_index_holds_items_in_order() {
    let index = ImageIndex {
        items: vec![
            ImageIndexItem { filename: "a.png".to_string(), created_at: "2024-01-01".to_string() },
            ImageIndexItem { filename: "b.png".to_string(), created_at: "2024-01-02".to_string() },
        ],
    };
    let copy = index.clone();
    assert_eq!(copy.items[1].filename, "b.png");
}

#[test]
fn saved_values_restore_existing_controls_only() {
    let mut values: NamedMap<f32> = NamedMap::new();
    values.insert("a", 0.1);
    values.insert("b", 0.2);
    values.insert("c", 0.3);
    let saved = vec![
        ("b".to_string(), 0.9),
        ("gone".to_string(), 1.0),
        ("a".to_string(), 0.5),
        ("b".to_string(), 0.7),
    ];
    merge_saved_values(&mut values, saved);
    assert_eq!(values.len(), 3);
    assert_eq!(values.get("a"), Some(&0.5));
    assert_eq!(values.get("b"), Some(&0.9));
    assert_eq!(values.get("c"), Some(&0.3));
    assert!(!values.contains_key("gone"));
}

#[test]
fn saved_values_of_any_type() {
    let mut values: NamedMap<String> = NamedMap::new();
    values.insert("mode", "simple".to_string());
    merge_saved_values(&mut values, vec![("mode".to_string(), "advanced".to_string())]);
    assert_eq!(values.get("mode"), Some(&"advanced".to_string()));
    let before = values.get("mode").cloned();
    merge_saved_values(&mut values, vec![("mode".to_string(), "advanced".to_string())]);
    assert_eq!(values.get("mode").cloned(), before);
}
