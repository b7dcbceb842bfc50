use bevy_app::manifest_config::{
    config_member_to_string_array, macros_members, BevyManifestConfig, ConfigError, ConfigMember, TomlEntry,
};

fn strings(v: &[&str]) -> Vec<String> {
    v.iter().map(|s| s.to_string()).collect()
}

#[test]
fn members_are_read() {
    let text = "[macros]\nreexports = [\"bevy\", \"my_engine\"]\nprefixes = [\"bevy_\", \"my_\"]\n";
    let c = BevyManifestConfig::from_text(text, None).unwrap();
    assert_eq!(c.reexports, strings(&["bevy", "my_engine"]));
    assert_eq!(c.prefixes, strings(&["bevy_", "my_"]));
    assert!(c.source().is_none());
}

#[test]
fn absent_members_default_to_bevy_prefix() {
    let c = BevyManifestConfig::from_text("[package]\nname = \"x\"\n", None).unwrap();
    assert_eq!(c.reexports, strings(&["bevy_"]));
    assert_eq!(c.prefixes, strings(&["bevy_"]));
    let c = BevyManifestConfig::from_text("[macros]\nprefixes = []\n", None).unwrap();
    assert_eq!(c.reexports, strings(&["bevy_"]));
    assert!(c.prefixes.is_empty());
}

#[test]
fn member_that_is_not_an_array() {
    match BevyManifestConfig::from_text("[macros]\nprefixes = \"bevy_\"\n", None) {
        Err(ConfigError::NotStringArray(member)) => assert_eq!(member, "prefixes"),
        other => panic!("unexpected {:?}", other.map(|c| c.prefixes)),
    }
}

#[test]
fn array_with_a_non_string() {
    match BevyManifestConfig::from_text("[macros]\nreexports = [\"a\", 1]\n", None) {
        Err(ConfigError::NotStringArray(member)) => assert_eq!(member, "reexports"),
        other => panic!("unexpected {:?}", other.map(|c| c.reexports)),
    }
}

#[test]
fn prefixes_are_checked_first() {
    match BevyManifestConfig::from_text("[macros]\nreexports = 1\nprefixes = 2\n", None) {
        Err(ConfigError::NotStringArray(member)) => assert_eq!(member, "prefixes"),
        other => panic!("unexpected {:?}", other.map(|c| c.prefixes)),
    }
}

#[test]
fn text_that_is_not_toml() {
    match BevyManifestConfig::from_text("[macros\nreexports = ", None) {
        Err(ConfigError::Parse(msg)) => assert!(!msg.is_empty()),
        other => panic!("unexpected {:?}", other.map(|c| c.prefixes)),
    }
}

#[test]
fn from_members_values() {
    let c = BevyManifestConfig::from_members(
        Some(ConfigMember::Array(vec![Some("r".to_string())])),
        None,
        None,
    )
    .unwrap();
    assert_eq!(c.reexports, strings(&["r"]));
    assert_eq!(c.prefixes, strings(&["bevy_"]));
    assert!(matches!(
        BevyManifestConfig::from_members(Some(ConfigMember::Array(vec![None])), None, None),
        Err(ConfigError::NotStringArray("reexports"))
    ));
    assert!(matches!(
        BevyManifestConfig::from_members(None, Some(ConfigMember::NotArray), None),
        Err(ConfigError::NotStringArray("prefixes"))
    ));
}

#[test]
fn fallback_config() {
    let c = BevyManifestConfig::fallback();
    assert_eq!(c.reexports, strings(&["bevy"]));
    assert_eq!(c.prefixes, strings(&["bevy_"]));
    assert!(c.source().is_none());
}

#[test]
fn member_strings() {
    assert_eq!(config_member_to_string_array(None), strings(&["bevy_"]));
    assert_eq!(
        config_member_to_string_array(Some(ConfigMember::Array(vec![Some("a".to_string()), Some("b".to_string())]))),
        strings(&["a", "b"])
    );
}

fn path(p: &str) -> Vec<Vec<u8>> {
    p.split('/').filter(|c| !c.is_empty()).map(|c| c.as_bytes().to_vec()).collect()
}

#[test]
fn cached_lookup_prefers_the_directory_itself() {
    let roots = vec![path("/a"), path("/a/b"), path("/c")];
    assert_eq!(bevy_app::manifest_config::cached_config_index(&roots, &path("/a/b")), Some(1));
}

#[test]
fn cached_lookup_takes_the_first_ancestor() {
    let roots = vec![path("/c"), path("/a"), path("/a/b")];
    assert_eq!(bevy_app::manifest_config::cached_config_index(&roots, &path("/a/b/d")), Some(1));
    assert_eq!(bevy_app::manifest_config::cached_config_index(&roots, &path("/e")), None);
    assert_eq!(bevy_app::manifest_config::cached_config_index(&roots, &path("/ab")), None);
}

#[test]
fn inline_macros_table_is_read() {
    let c = BevyManifestConfig::from_text("macros = { prefixes = [\"a_\"] }\n", None).unwrap();
    assert_eq!(c.prefixes, strings(&["a_"]));
    assert_eq!(c.reexports, strings(&["bevy_"]));
}

#[test]
fn macros_that_is_not_a_table() {
    let c = BevyManifestConfig::from_text("macros = 1\n", None).unwrap();
    assert_eq!(c.prefixes, strings(&["bevy_"]));
    assert_eq!(c.reexports, strings(&["bevy_"]));
}

#[test]
fn config_path_appends_config_file() {
    let p = bevy_app::manifest_config::path_to_config(&path("/a/b"));
    assert_eq!(p, vec![b"a".to_vec(), b"b".to_vec(), b".config".to_vec(), b"bevy_manifest.toml".to_vec()]);
}

fn array(items: &[&str]) -> ConfigMember {
    ConfigMember::Array(items.iter().map(|s| Some(s.to_string())).collect())
}

#[test]
fn macros_members_takes_the_first_macros_table() {
    let entries = vec![
        ("package".to_string(), TomlEntry::Table(vec![("prefixes".to_string(), array(&["no_"]))])),
        (
            "macros".to_string(),
            TomlEntry::Table(vec![
                ("prefixes".to_string(), array(&["p_"])),
                ("other".to_string(), ConfigMember::NotArray),
                ("reexports".to_string(), array(&["r"])),
            ]),
        ),
        ("macros".to_string(), TomlEntry::NotTable),
    ];
    let (reexports, prefixes) = macros_members(entries);
    assert!(matches!(reexports, Some(ConfigMember::Array(v)) if v == vec![Some("r".to_string())]));
    assert!(matches!(prefixes, Some(ConfigMember::Array(v)) if v == vec![Some("p_".to_string())]));
    let (reexports, prefixes) = macros_members(vec![("macros".to_string(), TomlEntry::NotTable)]);
    assert!(reexports.is_none() && prefixes.is_none());
}

#[test]
fn config_from_parsed_entries() {
    let entries = vec![(
        "macros".to_string(),
        TomlEntry::Table(vec![("reexports".to_string(), array(&["my_engine"]))]),
    )];
    let c = BevyManifestConfig::from_entries(entries, None).unwrap();
    assert_eq!(c.reexports, strings(&["my_engine"]));
    assert_eq!(c.prefixes, strings(&["bevy_"]));
    let bad = vec![("macros".to_string(), TomlEntry::Table(vec![("prefixes".to_string(), ConfigMember::NotArray)]))];
    assert!(matches!(BevyManifestConfig::from_entries(bad, None), Err(ConfigError::NotStringArray("prefixes"))));
}
