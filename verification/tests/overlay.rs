use iris::overlay::{cow_file, cow_table, overlay_sets, OverlaySet};
use iris::snapshot::Snapshot;
use iris::table::Table;
use iris::toml_value::TomlValue;

fn numbers(v: &[i64]) -> TomlValue {
    TomlValue::Array(v.iter().map(|n| TomlValue::Integer(*n)).collect())
}

#[test]
fn overlays_round_trip() {
    let sets: Vec<OverlaySet> = vec![(1, vec![0, 5, u64::MAX]), (2, vec![]), (10, vec![7])];
    let mut back = overlay_sets(&cow_table(&sets));
    back.sort();
    assert_eq!(back, sets);
}

#[test]
fn overlays_round_trip_through_text() {
    let snap = Snapshot::new("saves/base".to_string());
    let sets: Vec<OverlaySet> = vec![(1, vec![3, 4])];
    let file = cow_file(&snap, &sets).unwrap();
    assert_eq!(file.path, "saves/base/cow.toml");
    let outside: toml::Value = toml::from_str(&file.text).unwrap();
    assert_eq!(outside.get("scsi1").unwrap().as_array().unwrap().len(), 2);
    assert_eq!(overlay_sets(&snap.read_toml(Ok(file.text)).unwrap()), sets);
}

#[test]
fn what_is_no_overlay_is_passed_over() {
    let mut t = Table::new();
    t.insert("scsi3".to_string(), numbers(&[1, -1]));
    t.insert("disk3".to_string(), numbers(&[2]));
    t.insert("scsi".to_string(), numbers(&[2]));
    t.insert("scsix".to_string(), numbers(&[2]));
    t.insert("scsi+4".to_string(), TomlValue::Array(vec![TomlValue::Boolean(true), TomlValue::Integer(9)]));
    t.insert("scsi5".to_string(), TomlValue::Integer(1));
    let mut sets = overlay_sets(&TomlValue::Table(t));
    sets.sort();
    assert_eq!(sets, vec![(3, vec![1, u64::MAX]), (4, vec![9])]);
    assert!(overlay_sets(&TomlValue::Integer(3)).is_empty());
}

#[test]
fn later_overlay_of_a_disk_counts() {
    let sets: Vec<OverlaySet> = vec![(1, vec![1]), (1, vec![2])];
    assert_eq!(overlay_sets(&cow_table(&sets)), vec![(1, vec![2])]);
}
