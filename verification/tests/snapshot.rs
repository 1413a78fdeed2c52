use iris::snapshot::{
    get_field, hex_u16, hex_u32, hex_u64, hex_u8, load_u16_slice, load_u32_slice, load_u64_slice, load_u8_slice,
    toml_bool, toml_u16, toml_u32, toml_u64, toml_u8, u16_slice_to_toml, u32_slice_to_toml, u64_slice_to_toml,
    u8_slice_to_toml, Contents, Manifest, Snapshot, SCHEMA_VERSION,
};
use iris::table::Table;
use iris::toml_value::TomlValue;

const ARCH: &str = "x86_64";

fn text(s: &str) -> TomlValue {
    TomlValue::String(s.to_string())
}

#[test]
fn manifest_round_trip_full() {
    let m = Manifest {
        schema_version: 1,
        iris_git_rev: Some("abc123".into()),
        host_arch: "aarch64".into(),
        created_at_unix: 1_700_000_000,
        parent: Some("base/desktop".into()),
        description: Some("post mogrix install".into()),
        installed_bundles: vec!["grep-2.5.4".into(), "sed-4.2.2".into()],
    };
    let v = m.to_toml();
    let m2 = Manifest::from_toml(&v).expect("parse");
    assert_eq!(m2.schema_version, m.schema_version);
    assert_eq!(m2.iris_git_rev, m.iris_git_rev);
    assert_eq!(m2.host_arch, m.host_arch);
    assert_eq!(m2.created_at_unix, m.created_at_unix);
    assert_eq!(m2.parent, m.parent);
    assert_eq!(m2.description, m.description);
    assert_eq!(m2.installed_bundles, m.installed_bundles);
}

#[test]
fn manifest_round_trip_minimal() {
    let m = Manifest {
        schema_version: 1,
        iris_git_rev: None,
        host_arch: "x86_64".into(),
        created_at_unix: 0,
        parent: None,
        description: None,
        installed_bundles: vec![],
    };
    let v = m.to_toml();
    let m2 = Manifest::from_toml(&v).expect("parse");
    assert!(m2.iris_git_rev.is_none());
    assert!(m2.parent.is_none());
    assert!(m2.description.is_none());
    assert!(m2.installed_bundles.is_empty());
}

#[test]
fn manifest_rejects_missing_schema_version() {
    let mut tbl = Table::new();
    tbl.insert("host_arch".into(), text("aarch64"));
    let v = TomlValue::Table(tbl);
    assert!(Manifest::from_toml(&v).is_err());
}

#[test]
fn manifest_disk_round_trip() {
    let snap = Snapshot::new("saves/manifest".to_string());
    let m = Manifest::for_current_save(None, ARCH);
    let file = snap.write_manifest(&m).expect("write");
    assert_eq!(file.path, "saves/manifest/snapshot.toml");
    let loaded = snap.read_manifest(&Contents::Text(file.text)).expect("read").expect("present");
    assert_eq!(loaded.schema_version, SCHEMA_VERSION);
    assert_eq!(loaded.host_arch, ARCH);
}

#[test]
fn manifest_absent_returns_none() {
    let snap = Snapshot::new("saves/missing".to_string());
    let loaded = snap.read_manifest(&Contents::Absent).expect("read");
    assert!(loaded.is_none());
}

#[test]
fn for_current_save_uses_runtime_arch() {
    let m = Manifest::for_current_save(None, ARCH);
    assert_eq!(m.schema_version, SCHEMA_VERSION);
    assert_eq!(m.host_arch, ARCH);
    assert!(m.parent.is_none());
}

#[test]
fn for_current_save_reads_the_clock() {
    // Some time in the year 2020.
    assert!(Manifest::for_current_save(None, ARCH).created_at_unix > 1_590_000_000);
}

#[test]
fn manifest_errors_name_what_is_missing() {
    assert_eq!(Manifest::from_toml(&TomlValue::Integer(1)).err().unwrap(), "manifest: not a table");
    assert_eq!(
        Manifest::from_toml(&TomlValue::Table(Table::new())).err().unwrap(),
        "manifest: missing schema_version"
    );
    let mut tbl = Table::new();
    tbl.insert("schema_version".into(), TomlValue::Integer(2));
    assert_eq!(Manifest::from_toml(&TomlValue::Table(tbl)).err().unwrap(), "manifest: missing host_arch");
}

#[test]
fn manifest_numbers_are_cut_to_their_width() {
    let mut tbl = Table::new();
    tbl.insert("schema_version".into(), TomlValue::Integer(0x1_0000_0003));
    tbl.insert("host_arch".into(), text("mips"));
    tbl.insert("created_at_unix".into(), TomlValue::Integer(-1));
    tbl.insert(
        "installed_bundles".into(),
        TomlValue::Array(vec![text("a"), TomlValue::Boolean(true), text("b")]),
    );
    let m = Manifest::from_toml(&TomlValue::Table(tbl)).unwrap();
    assert_eq!(m.schema_version, 3);
    assert_eq!(m.created_at_unix, u64::MAX);
    assert_eq!(m.installed_bundles, vec!["a".to_string(), "b".to_string()]);
}

#[test]
fn manifest_text_is_toml() {
    let snap = Snapshot::new("saves/base".to_string());
    let m = Manifest {
        schema_version: 2,
        iris_git_rev: None,
        host_arch: "aarch64".into(),
        created_at_unix: 7,
        parent: Some("it's \"quoted\"\n".into()),
        description: None,
        installed_bundles: vec![],
    };
    let file = snap.write_manifest(&m).unwrap();
    let outside: toml::Value = toml::from_str(&file.text).unwrap();
    assert_eq!(outside.get("schema_version").unwrap().as_integer(), Some(2));
    assert_eq!(outside.get("parent").unwrap().as_str(), Some("it's \"quoted\"\n"));
    let back = snap.read_manifest(&Contents::Text(file.text)).unwrap().unwrap();
    assert_eq!(back.parent.as_deref(), Some("it's \"quoted\"\n"));
    assert_eq!(back.created_at_unix, 7);
}

#[test]
fn unreadable_manifest_is_an_error() {
    let snap = Snapshot::new("saves/base".to_string());
    assert_eq!(
        snap.read_manifest(&Contents::Unreadable("permission denied".into())).err().unwrap(),
        "permission denied"
    );
    assert!(snap.read_manifest(&Contents::Text("= nonsense".into())).is_err());
    assert_eq!(
        snap.read_manifest(&Contents::Text("a = 1".into())).err().unwrap(),
        "manifest: missing schema_version"
    );
}

#[test]
fn documents_are_written_below_the_directory() {
    let snap = Snapshot::new("saves/base".to_string());
    let mut tbl = Table::new();
    tbl.insert("b".into(), TomlValue::Boolean(true));
    tbl.insert("a".into(), TomlValue::Array(vec![TomlValue::Integer(-5)]));
    let file = snap.write_toml("mc.toml", &TomlValue::Table(tbl)).unwrap();
    assert_eq!(file.path, "saves/base/mc.toml");
    let back = snap.read_toml(Ok(file.text)).unwrap();
    assert_eq!(get_field(&back, "a").unwrap().as_array().unwrap()[0].as_integer(), Some(-5));
    assert_eq!(toml_bool(get_field(&back, "b").unwrap()), Some(true));
    assert!(get_field(&back, "c").is_none());
    assert!(get_field(&TomlValue::Integer(1), "a").is_none());
    assert_eq!(snap.read_toml(Err("gone".into())).err().unwrap(), "gone");
}

#[test]
fn numbers_are_padded_hexadecimal() {
    assert_eq!(hex_u64(0x1234abcd).as_str(), Some("0x000000001234abcd"));
    assert_eq!(hex_u32(0x1234abcd).as_str(), Some("0x1234abcd"));
    assert_eq!(hex_u16(0x1234).as_str(), Some("0x1234"));
    assert_eq!(hex_u8(0x12).as_str(), Some("0x12"));
    assert_eq!(hex_u8(0x5).as_str(), Some("0x05"));
}

#[test]
fn numbers_are_read_from_text_and_integers() {
    assert_eq!(toml_u64(&text("0xffffffffffffffff")), Some(u64::MAX));
    assert_eq!(toml_u64(&text("ff")), Some(255));
    assert_eq!(toml_u64(&text("0x0xff")), Some(255));
    assert_eq!(toml_u64(&text("+ff")), Some(255));
    assert_eq!(toml_u64(&text("")), None);
    assert_eq!(toml_u64(&text("0x")), None);
    assert_eq!(toml_u64(&text("0x10000000000000000")), None);
    assert_eq!(toml_u64(&text("xyz")), None);
    assert_eq!(toml_u64(&TomlValue::Integer(-1)), Some(u64::MAX));
    assert_eq!(toml_u64(&TomlValue::Boolean(true)), None);
    assert_eq!(toml_u32(&text("0x123456789")), Some(0x23456789));
    assert_eq!(toml_u32(&TomlValue::Integer(-2)), Some(0xffff_fffe));
    assert_eq!(toml_u16(&text("0x12345")), Some(0x2345));
    assert_eq!(toml_u8(&text("0x123")), Some(0x23));
    assert_eq!(toml_u8(&TomlValue::Integer(256)), Some(0));
    assert_eq!(toml_bool(&TomlValue::Integer(1)), None);
}

#[test]
fn number_arrays_round_trip() {
    let mut a = [0u64; 3];
    load_u64_slice(&u64_slice_to_toml(&[1, 2, u64::MAX]), &mut a);
    assert_eq!(a, [1, 2, u64::MAX]);
    let mut a = [0u32; 2];
    load_u32_slice(&u32_slice_to_toml(&[7, 8]), &mut a);
    assert_eq!(a, [7, 8]);
    let mut a = [0u16; 2];
    load_u16_slice(&u16_slice_to_toml(&[9, 65535]), &mut a);
    assert_eq!(a, [9, 65535]);
    let mut a = [0u8; 2];
    load_u8_slice(&u8_slice_to_toml(&[3, 4]), &mut a);
    assert_eq!(a, [3, 4]);
}

#[test]
fn number_arrays_fill_what_they_have() {
    let mut a = [9u8; 3];
    load_u8_slice(&TomlValue::Array(vec![text("0x01"), TomlValue::Boolean(true)]), &mut a);
    assert_eq!(a, [1, 9, 9]);
    load_u8_slice(&u8_slice_to_toml(&[5, 6, 7, 8]), &mut a);
    assert_eq!(a, [5, 6, 7]);
    load_u8_slice(&text("0x01"), &mut a);
    assert_eq!(a, [5, 6, 7]);
}
