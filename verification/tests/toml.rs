use iris::table::Table;
use iris::toml_text::{parse, quotes_fit};
use iris::toml_value::TomlValue;

#[test]
fn document_is_read_as_a_tree() {
    let v = parse("x = 3\ny = true\nz = \"t\"\nw = [1, 2]\n[sub]\nq = 1.5\n").unwrap();
    let t = v.as_table().unwrap();
    assert_eq!(t.get("x").unwrap().as_integer(), Some(3));
    assert_eq!(t.get("y").unwrap().as_bool(), Some(true));
    assert_eq!(t.get("z").unwrap().as_str(), Some("t"));
    assert_eq!(t.get("w").unwrap().as_array().unwrap().len(), 2);
    let sub = t.get("sub").unwrap().as_table().unwrap();
    assert!(matches!(sub.get("q"), Some(TomlValue::Other(_))));
    assert!(sub.get("q").unwrap().as_integer().is_none());
}

#[test]
fn floats_and_dates_pass_through() {
    let v = parse("a = 1.5\nb = 1979-05-27\n").unwrap();
    let text = iris::toml_text::write(&v).unwrap();
    let outside: toml::Value = toml::from_str(&text).unwrap();
    assert_eq!(outside.get("a").unwrap().as_float(), Some(1.5));
    assert_eq!(outside.get("b").unwrap().as_datetime().unwrap().to_string(), "1979-05-27");
}

#[test]
fn text_that_is_no_document_is_an_error() {
    assert!(parse("a = ").is_err());
    assert!(parse("a = 1\na = 2").is_err());
}

#[test]
fn a_bare_value_is_no_document() {
    assert!(iris::toml_text::write(&TomlValue::Integer(3)).is_err());
}

#[test]
fn long_runs_of_quotes_are_told() {
    let long = "\"".repeat(256);
    assert!(!quotes_fit(&TomlValue::String(long.clone())));
    assert!(quotes_fit(&TomlValue::String("\"".repeat(255))));
    // Names are quoted in another way.
    let mut t = Table::new();
    t.insert(long, TomlValue::Integer(1));
    let v = TomlValue::Table(t);
    assert!(quotes_fit(&v));
    assert!(iris::toml_text::write(&v).is_ok());
    assert!(!quotes_fit(&TomlValue::Array(vec![TomlValue::String("'".repeat(300))])));
}

#[test]
fn longest_runs_of_quotes_are_written() {
    let text = format!("{}\n{}", "'".repeat(255), "\"".repeat(255));
    let mut t = Table::new();
    t.insert("k".to_string(), TomlValue::String(text.clone()));
    let v = TomlValue::Table(t);
    assert!(quotes_fit(&v));
    let back = parse(&iris::toml_text::write(&v).unwrap()).unwrap();
    assert_eq!(back.as_table().unwrap().get("k").unwrap().as_str(), Some(text.as_str()));
}

#[test]
fn odd_texts_are_read_back() {
    let odd = [
        "", "a", "\n", "\r", "\r\n", "\t", "'", "''", "'''", "\"", "\"\"\"", "\\", "\u{0}", "\u{7f}", "\u{85}", "é",
        " ", "#",
    ];
    for a in odd {
        for b in odd {
            for c in odd {
                let text = format!("{}{}{}", a, b, c);
                let mut t = Table::new();
                t.insert("k".to_string(), TomlValue::String(text.clone()));
                t.insert("l".to_string(), TomlValue::Array(vec![TomlValue::String(text.clone())]));
                let back = parse(&iris::toml_text::write(&TomlValue::Table(t)).unwrap()).unwrap();
                let back = back.as_table().unwrap();
                assert_eq!(back.get("k").unwrap().as_str(), Some(text.as_str()));
                assert_eq!(back.get("l").unwrap().as_array().unwrap()[0].as_str(), Some(text.as_str()));
            }
        }
    }
}

#[test]
fn table_keeps_its_names_in_order() {
    let mut t: Table<u8> = Table::new();
    t.insert("b".to_string(), 1);
    t.insert("a".to_string(), 2);
    t.insert("b".to_string(), 3);
    assert_eq!(t.entries, vec![("a".to_string(), 2), ("b".to_string(), 3)]);
    assert_eq!(t.get("a"), Some(&2));
    assert!(t.contains_key("b"));
    assert!(!t.contains_key("c"));
}
