use lattice_core::framework::serialization::snapshot_values;

fn pairs(items: &[(&str, i32)]) -> Vec<(String, i32)> {
    items.iter().map(|(k, v)| (k.to_string(), *v)).collect()
}

#[test]
fn snapshot_values_later_sources_win() {
    let values = snapshot_values(
        pairs(&[("a", 1), ("b", 2)]),
        pairs(&[("b", 3), ("c", 4)]),
        pairs(&[("c", 5), ("d", 6), ("d", 7)]),
    );
    assert_eq!(values.len(), 4);
    assert_eq!(values.get("a"), Some(&1));
    assert_eq!(values.get("b"), Some(&3));
    assert_eq!(values.get("c"), Some(&5));
    assert_eq!(values.get("d"), Some(&7));
    assert_eq!(values.get("e"), None);
}

#[test]
fn empty_snapshot_has_no_values() {
    let values = snapshot_values::<i32>(Vec::new(), Vec::new(), Vec::new());
    assert!(values.is_empty());
}
