use rapl_energy::EnergyMap;
use rapl_energy::energy_map::merge;

#[test]
fn insertion_order_is_kept_and_keys_stay_unique() {
    let mut m = EnergyMap::new();
    assert_eq!(m.len(), 0);
    assert_eq!(m.insert("a".to_string(), 1), None);
    assert_eq!(m.insert("b".to_string(), 2), None);
    // an existing key keeps its place and takes the new value; the older
    // value comes back
    assert_eq!(m.insert("a".to_string(), 3), Some(1));
    assert_eq!(m.len(), 2);
    assert_eq!(m.entry_at(0), ("a".to_string(), 3));
    assert_eq!(m.entry_at(1), ("b".to_string(), 2));
    assert_eq!(m.get(&"a".to_string()), Some(3));
    assert_eq!(m.get(&"b".to_string()), Some(2));
    assert_eq!(m.get(&"c".to_string()), None);
}

#[test]
fn merging_disjoint_reports_concatenates_them() {
    let mut a = EnergyMap::new();
    a.insert("cpu0:package".to_string(), 10);
    a.insert("cpu0:core".to_string(), 20);
    let mut b = EnergyMap::new();
    b.insert("package-0".to_string(), 30);
    let merged = merge(&vec![a, b]);
    assert_eq!(merged.len(), 3);
    assert_eq!(merged.entry_at(0), ("cpu0:package".to_string(), 10));
    assert_eq!(merged.entry_at(1), ("cpu0:core".to_string(), 20));
    assert_eq!(merged.entry_at(2), ("package-0".to_string(), 30));
}

#[test]
fn on_a_shared_label_the_later_probe_wins() {
    let mut a = EnergyMap::new();
    a.insert("shared".to_string(), 10);
    a.insert("only-a".to_string(), 1);
    let mut b = EnergyMap::new();
    b.insert("shared".to_string(), 99);
    let merged = merge(&vec![a, b]);
    assert_eq!(merged.len(), 2);
    // the later value wins while the label keeps its first position
    assert_eq!(merged.entry_at(0), ("shared".to_string(), 99));
    assert_eq!(merged.entry_at(1), ("only-a".to_string(), 1));
}

#[test]
fn extending_with_another_report_folds_it_in() {
    let mut a = EnergyMap::new();
    a.insert("x".to_string(), 1);
    let mut b = EnergyMap::new();
    b.insert("y".to_string(), 2);
    b.insert("x".to_string(), 7);
    a.extend_from(&b);
    assert_eq!(a.len(), 2);
    assert_eq!(a.entry_at(0), ("x".to_string(), 7));
    assert_eq!(a.entry_at(1), ("y".to_string(), 2));
}

#[test]
fn merging_nothing_gives_an_empty_report() {
    let merged = merge(&vec![]);
    assert_eq!(merged.len(), 0);
}
