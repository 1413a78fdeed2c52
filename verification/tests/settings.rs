use iris::path::{has_parent, join, same_path};
use iris::settings::{uuid_like, GuiSettings};

#[test]
fn recent_configs_are_newest_first() {
    let mut s: GuiSettings<u8> = GuiSettings::new();
    for i in 0..12 {
        s.push_recent(format!("/c/{}.toml", i));
    }
    assert_eq!(s.recent_configs.len(), 10);
    assert_eq!(s.recent_configs[0], "/c/11.toml");
    assert_eq!(s.recent_configs[9], "/c/2.toml");
    assert_eq!(s.last_config.as_deref(), Some("/c/11.toml"));
    s.push_recent("/c/5.toml".to_string());
    assert_eq!(s.recent_configs.len(), 10);
    assert_eq!(s.recent_configs[0], "/c/5.toml");
    assert_eq!(s.recent_configs[1], "/c/11.toml");
    assert_eq!(s.recent_configs.iter().filter(|p| p.as_str() == "/c/5.toml").count(), 1);
}

#[test]
fn same_config_by_another_spelling_is_not_repeated() {
    let mut s: GuiSettings<u8> = GuiSettings::new();
    s.push_recent("/c/iris.toml".to_string());
    s.push_recent("/c//./iris.toml".to_string());
    assert_eq!(s.recent_configs, vec!["/c//./iris.toml".to_string()]);
}

#[test]
fn names_are_made_unique() {
    let mut s: GuiSettings<u8> = GuiSettings::new();
    assert_eq!(s.unique_name("indy"), "indy");
    s.machines.insert("indy".to_string(), 0);
    assert_eq!(s.unique_name("indy"), "indy-2");
    s.machines.insert("indy-2".to_string(), 0);
    s.machines.insert("indy-4".to_string(), 0);
    assert_eq!(s.unique_name("indy"), "indy-3");
}

#[test]
fn names_fall_back_once_the_numbers_are_used_up() {
    let mut s: GuiSettings<u8> = GuiSettings::new();
    s.machines.insert("a".to_string(), 0);
    for n in 2..1000 {
        s.machines.insert(format!("a-{}", n), 0);
    }
    assert_eq!(s.unique_name_or("a", "zzz"), "a-zzz");
    let name = s.unique_name("a");
    assert!(name.len() > 12);
    assert!(name[2..].chars().all(|c| c.is_ascii_digit()));
}

#[test]
fn uuid_like_is_the_time() {
    let s = uuid_like();
    let n: u128 = s.parse().unwrap();
    assert!(n > 1_590_000_000_000_000_000);
}

#[test]
fn settings_lie_below_the_configuration_directory() {
    assert_eq!(GuiSettings::<u8>::config_path(Some("/home/u/.config")).unwrap(), "/home/u/.config/iris/gui.json");
    assert!(GuiSettings::<u8>::config_path(None).is_none());
}

#[test]
fn new_settings_are_empty() {
    let s: GuiSettings<u8> = GuiSettings::new();
    assert!(!s.fullscreen && s.active_machine.is_none() && s.last_config.is_none());
    assert!(s.machines.entries.is_empty() && s.recent_configs.is_empty());
}

// The functions on paths agree with those of std.

#[test]
fn paths_join_as_in_std() {
    for dir in ["saves", "saves/", "", "/"] {
        for name in ["a", "/a", "a/b", "", "../x"] {
            assert_eq!(join(dir, name), std::path::Path::new(dir).join(name).to_str().unwrap());
        }
    }
}

#[test]
fn paths_compare_as_in_std() {
    let all = ["", "/", "//", ".", "./", "a", "./a", "a/", "a/.", "a//b", "a/b", "a/../b", "/a", "/./a", "a/./b"];
    for a in all {
        for b in all {
            assert_eq!(
                same_path(a, b),
                std::path::PathBuf::from(a) == std::path::PathBuf::from(b),
                "{:?} and {:?}",
                a,
                b
            );
        }
    }
}

#[test]
fn parents_are_found_as_in_std() {
    for p in ["..", "a/..", "../a", "a/../b", "a..b", "...", "..a", "a/...", "/..", "", "a/.. /b", "//..//"] {
        let expected =
            std::path::Path::new(p).components().any(|c| matches!(c, std::path::Component::ParentDir));
        assert_eq!(has_parent(p), expected, "{:?}", p);
    }
}
