use bevy_app::plugin::Plugin;
use bevy_app::plugin_graph::entry::{GetPluginError, PluginRecord};
use bevy_app::plugin_graph::patch::{PluginDependencyPatch, UpdatePluginDependency};
use bevy_app::plugin_graph::{PluginGraph, PluginGraphBuildError};
use bevy_app::plugin_id::{PluginDependency, PluginId};
use std::any::TypeId;

/// The type of the test records' plugins.
struct Named;

/// Another plugin type.
struct Other;

/// The id of a plugin type: the path of the type.
trait TypePath {
    const PATH: &'static str;
}

fn id_of<P: TypePath>() -> PluginId {
    PluginId::from_str(P::PATH)
}

struct PluginA;
impl TypePath for PluginA {
    const PATH: &'static str = "plugin_graph::PluginA";
}
impl Plugin for PluginA {
    fn name(&self) -> &str {
        Self::PATH
    }
    fn build_before(&self) -> Vec<PluginDependency> {
        vec![PluginDependency::Required(id_of::<PluginB>())]
    }
}

struct PluginB;
impl TypePath for PluginB {
    const PATH: &'static str = "plugin_graph::PluginB";
}
impl Plugin for PluginB {
    fn name(&self) -> &str {
        Self::PATH
    }
}

struct PluginC;
impl TypePath for PluginC {
    const PATH: &'static str = "plugin_graph::PluginC";
}
impl Plugin for PluginC {
    fn name(&self) -> &str {
        Self::PATH
    }
    fn build_after(&self) -> Vec<PluginDependency> {
        vec![PluginDependency::Required(id_of::<PluginB>())]
    }
}

/// A plugin record whose payload is the plugin's name.
fn record<P: Plugin + 'static>(plugin: P) -> PluginRecord<String> {
    let r = PluginRecord::from_plugin(plugin);
    let name = r.plugin.name().to_string();
    PluginRecord {
        id: r.id,
        type_id: r.type_id,
        build_before: r.build_before,
        build_after: r.build_after,
        plugin: name,
    }
}

fn abc() -> [PluginRecord<String>; 3] {
    [record(PluginA), record(PluginB), record(PluginC)]
}

/// The six orders in which the three plugins can be added.
fn all_orders() -> Vec<Vec<PluginRecord<String>>> {
    let orders: [[usize; 3]; 6] = [[0, 1, 2], [2, 0, 1], [1, 2, 0], [0, 2, 1], [1, 0, 2], [2, 1, 0]];
    orders
        .iter()
        .map(|o| {
            let mut rs: Vec<Option<PluginRecord<String>>> = abc().into_iter().map(Some).collect();
            o.iter().map(|&i| rs[i].take().unwrap()).collect()
        })
        .collect()
}

fn sorted_ids(plugins: Vec<PluginRecord<String>>, patch: Option<&PluginDependencyPatch>) -> Vec<PluginId> {
    let mut plugin_graph = PluginGraph::default();
    plugin_graph.add_plugins(plugins);
    if let Some(patch) = patch {
        plugin_graph.patch_plugin_dependencies(patch);
    }
    let plugins = plugin_graph.try_into_sorted_plugins().unwrap();
    plugins
        .iter()
        .flat_map(|e| e.plugins())
        .map(|p| p.id.clone())
        .collect::<Vec<_>>()
}

fn abc_patch() -> PluginDependencyPatch {
    PluginDependencyPatch::new(vec![
        (
            id_of::<PluginA>(),
            vec![
                UpdatePluginDependency::RemoveBefore(PluginDependency::Required(id_of::<PluginB>())),
                UpdatePluginDependency::AddAfter(PluginDependency::Required(id_of::<PluginC>())),
            ],
        ),
        (
            id_of::<PluginB>(),
            vec![UpdatePluginDependency::AddBefore(PluginDependency::Required(id_of::<PluginC>()))],
        ),
        (
            id_of::<PluginC>(),
            vec![UpdatePluginDependency::RemoveAfter(PluginDependency::Required(id_of::<PluginB>()))],
        ),
    ])
}

#[test]
fn plugin_graph_build_order() {
    for plugins in all_orders() {
        assert_eq!(
            vec![id_of::<PluginA>(), id_of::<PluginB>(), id_of::<PluginC>()],
            sorted_ids(plugins, None)
        );
    }
}

#[test]
fn plugin_graph_build_order_with_patch() {
    for plugins in all_orders() {
        assert_eq!(
            vec![id_of::<PluginB>(), id_of::<PluginC>(), id_of::<PluginA>()],
            sorted_ids(plugins, Some(&abc_patch()))
        );
    }
}

#[test]
fn mod_build_order() {
    for plugins in all_orders() {
        let mut plugin_graph = PluginGraph::default();
        plugin_graph.add_plugins(plugins);
        let plugin_ids = plugin_graph
            .try_into_plugin_vec()
            .unwrap()
            .iter()
            .map(|p| p.id.clone())
            .collect::<Vec<_>>();
        assert_eq!(
            vec![id_of::<PluginA>(), id_of::<PluginB>(), id_of::<PluginC>()],
            plugin_ids
        );
    }
}

#[test]
fn mod_build_order_with_patch() {
    for plugins in all_orders() {
        let mut plugin_graph = PluginGraph::default();
        plugin_graph.add_plugins(plugins);
        plugin_graph.patch_plugin_dependencies(&abc_patch());
        let plugin_ids = plugin_graph
            .try_into_plugin_vec()
            .unwrap()
            .iter()
            .map(|p| p.id.clone())
            .collect::<Vec<_>>();
        assert_eq!(
            vec![id_of::<PluginB>(), id_of::<PluginC>(), id_of::<PluginA>()],
            plugin_ids
        );
    }
}

fn named(id: &str, before: &[&str], after: &[&str]) -> PluginRecord<String> {
    PluginRecord {
        id: PluginId::from_str(id),
        type_id: TypeId::of::<Named>(),
        build_before: before.iter().map(|s| PluginDependency::Required(PluginId::from_str(s))).collect(),
        build_after: after.iter().map(|s| PluginDependency::Required(PluginId::from_str(s))).collect(),
        plugin: id.to_string(),
    }
}

#[test]
fn missing_required_dependency_is_an_error() {
    let mut g = PluginGraph::default();
    g.add_plugins(vec![named("a", &[], &["nowhere"])]);
    match g.try_into_sorted_plugins() {
        Err(PluginGraphBuildError::MissingRequiredPlugin(id)) => assert_eq!(id, PluginId::from_str("nowhere")),
        _ => panic!("expected a missing plugin"),
    }
}

#[test]
fn missing_optional_dependency_is_ignored() {
    let mut g = PluginGraph::default();
    let mut a = named("a", &[], &[]);
    a.build_after.push(PluginDependency::Optional(PluginId::from_str("nowhere")));
    g.add_plugins(vec![a, named("b", &[], &["a"])]);
    let order: Vec<String> = g.try_into_plugin_vec().unwrap().into_iter().map(|p| p.plugin).collect();
    assert_eq!(order, vec!["a".to_string(), "b".to_string()]);
}

#[test]
fn circular_dependency_reports_the_cycle() {
    let mut g = PluginGraph::default();
    g.add_plugins(vec![named("a", &["b"], &[]), named("b", &["c"], &[]), named("c", &["a"], &[])]);
    match g.try_into_sorted_plugins() {
        Err(PluginGraphBuildError::CircularDependency(cycle)) => {
            assert_eq!(cycle.len(), 4);
            assert_eq!(cycle.first(), cycle.last());
            let names: Vec<&str> = cycle.iter().map(|i| i.as_str()).collect();
            // Listed backwards: each plugin must be built before the one listed before it.
            let pos = |s: &str| ["a", "b", "c"].iter().position(|x| *x == s).unwrap();
            for w in names.windows(2) {
                assert_eq!((pos(w[1]) + 1) % 3, pos(w[0]));
            }
        }
        _ => panic!("expected a circular dependency"),
    }
}

#[test]
fn self_dependency_is_skipped() {
    let mut g = PluginGraph::default();
    g.add_plugins(vec![named("a", &["a"], &["a"])]);
    assert_eq!(g.try_into_plugin_vec().unwrap().len(), 1);
}

#[test]
fn add_plugins_keeps_the_first_plugin_of_an_id() {
    let mut g = PluginGraph::default();
    let mut second = named("a", &[], &[]);
    second.plugin = "second".to_string();
    g.add_plugins(vec![named("a", &[], &[]), second]);
    assert!(g.contains_plugin_id(&PluginId::from_str("a")));
    assert!(!g.contains_plugin_id(&PluginId::from_str("b")));
    let t = TypeId::of::<Named>();
    assert_eq!(g.get_plugin(&PluginId::from_str("a"), &t, "Named").unwrap(), "a");
}

#[test]
fn upset_plugins_replaces_a_plugin_of_the_same_type() {
    let mut g = PluginGraph::default();
    g.add_plugins(vec![named("a", &[], &[]), named("b", &[], &[])]);
    let mut replacement = named("a", &[], &[]);
    replacement.plugin = "replaced".to_string();
    let mut other_type = named("b", &[], &[]);
    other_type.type_id = TypeId::of::<Other>();
    other_type.plugin = "other".to_string();
    g.upset_plugins(vec![replacement, other_type, named("c", &[], &[])]);
    let t = TypeId::of::<Named>();
    assert_eq!(g.get_plugin(&PluginId::from_str("a"), &t, "Named").unwrap(), "replaced");
    assert_eq!(g.get_plugin(&PluginId::from_str("b"), &t, "Named").unwrap(), "b");
    assert!(g.contains_plugin_id(&PluginId::from_str("c")));
}

#[test]
fn get_plugin_errors() {
    let mut g = PluginGraph::default();
    g.add_plugins(vec![named("a", &[], &[])]);
    let t = TypeId::of::<Named>();
    let other = TypeId::of::<Other>();
    match g.get_plugin(&PluginId::from_str("x"), &t, "Named") {
        Err(e @ GetPluginError::PluginNotAdded(_)) => {
            assert_eq!(e.to_string(), "The plugin with id x was not added")
        }
        _ => panic!("expected PluginNotAdded"),
    }
    match g.get_plugin(&PluginId::from_str("a"), &other, "Other") {
        Err(e @ GetPluginError::InvalidType(..)) => {
            assert_eq!(e.to_string(), "The plugin type with id a is not of the expected type Other")
        }
        _ => panic!("expected InvalidType"),
    }
}

#[test]
fn get_plugin_mut_changes_the_plugin() {
    let mut g = PluginGraph::default();
    g.add_plugins(vec![named("a", &[], &[])]);
    let t = TypeId::of::<Named>();
    *g.get_plugin_mut(&PluginId::from_str("a"), &t, "Named").unwrap() = "changed".to_string();
    assert_eq!(g.get_plugin(&PluginId::from_str("a"), &t, "Named").unwrap(), "changed");
}

#[test]
fn alias_groups_plugins_in_one_node() {
    let mut g = PluginGraph::default();
    g.add_plugins_as_alias(
        PluginId::from_str("group"),
        vec![named("x", &[], &[]), named("y", &[], &[])],
    );
    g.add_plugins(vec![named("z", &["y"], &[])]);
    let t = TypeId::of::<Named>();
    // `y` is found through its alias, the first plugin of the type in the group.
    assert_eq!(g.get_plugin(&PluginId::from_str("y"), &t, "Named").unwrap(), "x");
    assert!(g.contains_plugin_id(&PluginId::from_str("group")));
    // A plugin of an alias group counts as added.
    assert!(g.contains_plugin_id(&PluginId::from_str("y")));
    assert!(!g.contains_plugin_id(&PluginId::from_str("w")));
    let order: Vec<String> = g.try_into_plugin_vec().unwrap().into_iter().map(|p| p.plugin).collect();
    assert_eq!(order, vec!["z".to_string(), "x".to_string(), "y".to_string()]);
}

#[test]
fn alias_is_not_overwritten() {
    let mut g = PluginGraph::default();
    g.add_plugins(vec![named("group", &[], &[])]);
    g.add_plugins_as_alias(PluginId::from_str("group"), vec![named("x", &[], &[])]);
    assert_eq!(g.iter_plugins().len(), 1);
    let t = TypeId::of::<Named>();
    assert!(g.get_plugin(&PluginId::from_str("x"), &t, "Named").is_err());
}

#[test]
fn build_error_messages() {
    let missing = PluginGraphBuildError::MissingRequiredPlugin(PluginId::from_str("p"));
    assert_eq!(missing.to_string(), "Missing required plugin: 'p'");
    let cycle = PluginGraphBuildError::CircularDependency(vec![
        PluginId::from_str("a"),
        PluginId::from_str("b"),
        PluginId::from_str("a"),
    ]);
    assert_eq!(cycle.to_string(), "Circular dependency detected with plugin: 'a -> b -> a'");
}

#[test]
fn cycle_beside_a_branch_is_reported_once_round() {
    let mut g = PluginGraph::default();
    g.add_plugins(vec![
        named("a", &["b", "d"], &[]),
        named("b", &["c"], &[]),
        named("c", &["a"], &[]),
        named("d", &[], &[]),
    ]);
    match g.try_into_plugin_vec() {
        Err(PluginGraphBuildError::CircularDependency(cycle)) => {
            let names: Vec<&str> = cycle.iter().map(|i| i.as_str()).collect();
            let expected = [["a", "c", "b", "a"], ["b", "a", "c", "b"], ["c", "b", "a", "c"]];
            assert!(expected.iter().any(|e| names == e.to_vec()), "unexpected cycle {:?}", names);
        }
        _ => panic!("expected a circular dependency"),
    }
}
