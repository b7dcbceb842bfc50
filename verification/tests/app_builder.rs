use bevy_app::app_builder::AppBuilder;
use bevy_app::plugin_graph::entry::{GetPluginError, PluginRecord};
use bevy_app::plugin_graph::patch::{PluginDependencyPatch, UpdatePluginDependency};
use bevy_app::plugin_id::{PluginDependency, PluginId};
use std::any::TypeId;

fn id(s: &str) -> PluginId {
    PluginId::from_str(s)
}

/// The type of the test records' plugins.
struct Named;

/// Another plugin type.
struct Other;

fn ty() -> TypeId {
    TypeId::of::<Named>()
}

fn record(name: &str, payload: &str, after: &[&str]) -> PluginRecord<String> {
    PluginRecord {
        id: id(name),
        type_id: ty(),
        build_before: vec![],
        build_after: after.iter().map(|s| PluginDependency::Required(id(s))).collect(),
        plugin: payload.to_string(),
    }
}

fn order(b: AppBuilder<String>) -> Vec<String> {
    b.try_into_plugin_vec().unwrap().into_iter().map(|r| r.plugin).collect()
}

#[test]
fn empty_builder_builds_nothing() {
    let b: AppBuilder<String> = AppBuilder::empty();
    assert!(!b.contains_plugin_id(&id("a")));
    assert!(order(b).is_empty());
}

#[test]
fn adding_an_added_id_overwrites() {
    let mut b = AppBuilder::empty();
    b.add_plugins(vec![record("a", "first", &[])]);
    b.add_plugins(vec![record("a", "second", &[])]);
    assert_eq!(b.get_plugin(&id("a"), &ty(), "Named").unwrap(), "second");
    assert_eq!(order(b), vec!["second".to_string()]);
}

#[test]
fn builds_with_ids_and_dependencies() {
    let mut b = AppBuilder::empty();
    b.add_build_with_id("late".to_string(), ty(), vec![], vec![PluginDependency::Required(id("early"))], id("late"));
    b.add_build_with_id("early".to_string(), ty(), vec![], vec![], id("early"));
    assert!(b.contains_plugin_id(&id("late")));
    assert_eq!(order(b), vec!["early".to_string(), "late".to_string()]);
}

#[test]
fn build_with_a_random_id() {
    let mut b = AppBuilder::empty();
    let a = b.add_build("x".to_string(), ty(), vec![], vec![]);
    let c = b.add_build("y".to_string(), ty(), vec![], vec![]);
    assert_eq!(a.as_str().len(), 36);
    assert_ne!(a.as_str(), c.as_str());
    assert!(b.contains_plugin_id(&a));
    assert_eq!(b.get_plugin(&c, &ty(), "Named").unwrap(), "y");
}

#[test]
fn builder_get_plugin_mut_changes_the_plugin() {
    let mut b = AppBuilder::empty();
    b.add_plugins(vec![record("a", "old", &[])]);
    *b.get_plugin_mut(&id("a"), &ty(), "Named").unwrap() = "new".to_string();
    assert_eq!(b.get_plugin(&id("a"), &ty(), "Named").unwrap(), "new");
    match b.get_plugin_mut(&id("b"), &ty(), "Named") {
        Err(GetPluginError::PluginNotAdded(e)) => assert_eq!(e.as_str(), "b"),
        _ => panic!("plugin b was never added"),
    }
    let other = TypeId::of::<Other>();
    assert!(matches!(b.get_plugin_mut(&id("a"), &other, "Other"), Err(GetPluginError::InvalidType(_, "Other"))));
}

#[test]
fn alias_holds_plugins_in_given_order() {
    let mut b = AppBuilder::empty();
    b.add_plugins_as_alias(id("group"), vec![record("g2", "g2", &[]), record("g1", "g1", &[])]);
    b.add_plugins(vec![record("after", "after", &["group"])]);
    assert!(b.contains_plugin_id(&id("group")));
    assert!(b.contains_plugin_id(&id("g1")));
    assert_eq!(b.get_plugin(&id("g1"), &ty(), "Named").unwrap(), "g2");
    assert_eq!(order(b), vec!["g2".to_string(), "g1".to_string(), "after".to_string()]);
}

#[test]
fn patch_through_the_builder() {
    let mut b = AppBuilder::empty();
    b.add_plugins(vec![record("a", "a", &["b"]), record("b", "b", &[])]);
    let patch = PluginDependencyPatch::new(vec![(
        id("a"),
        vec![UpdatePluginDependency::RemoveAfter(PluginDependency::Required(id("b")))],
    )]);
    b.patch_plugin_dependencies(&patch);
    b.upset_plugins(vec![record("b", "b", &["a"])]);
    assert_eq!(order(b), vec!["a".to_string(), "b".to_string()]);
}

#[test]
fn plugin_in_an_alias_group_is_added() {
    let mut b = AppBuilder::empty();
    b.add_plugins_as_alias(id("grp"), vec![record("plugin_b", "b", &[])]);
    assert!(b.contains_plugin_id(&id("plugin_b")));
    assert_eq!(b.get_plugin(&id("plugin_b"), &ty(), "Named").unwrap(), "b");
}

#[test]
fn random_ids_are_version_4_uuids() {
    for _ in 0..20 {
        let id = PluginId::random();
        let s: Vec<char> = id.as_str().chars().collect();
        assert_eq!(s.len(), 36);
        for (k, c) in s.iter().enumerate() {
            if k == 8 || k == 13 || k == 18 || k == 23 {
                assert_eq!(*c, '-');
            } else {
                assert!(c.is_ascii_digit() || ('a'..='f').contains(c), "{}", id.as_str());
            }
        }
        assert_eq!(s[14], '4');
        assert!(['8', '9', 'a', 'b'].contains(&s[19]));
    }
}
