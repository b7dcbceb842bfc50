use bevy_app::plugin_graph::patch::{PluginDependencyPatch, UpdatePluginDependency};
use bevy_app::plugin_graph::{PluginGraph, PluginGraphBuildError};
use bevy_app::plugin_graph::entry::PluginRecord;
use bevy_app::plugin_id::{PluginDependency, PluginId};
use std::any::TypeId;

/// The type of the test records' plugins.
struct Named;

fn id(s: &str) -> PluginId {
    PluginId::from_str(s)
}

fn add_before(s: &str) -> UpdatePluginDependency {
    UpdatePluginDependency::AddBefore(PluginDependency::Required(id(s)))
}

fn order_of(patch: &PluginDependencyPatch, records: Vec<PluginRecord<String>>) -> Result<Vec<String>, PluginGraphBuildError> {
    let mut g = PluginGraph::default();
    g.add_plugins(records);
    g.patch_plugin_dependencies(patch);
    g.try_into_plugin_vec().map(|v| v.into_iter().map(|p| p.plugin).collect())
}

fn is_cycle(r: &Result<Vec<String>, PluginGraphBuildError>) -> bool {
    matches!(r, Err(PluginGraphBuildError::CircularDependency(_)))
}

fn strings(v: &[&str]) -> Vec<String> {
    v.iter().map(|s| s.to_string()).collect()
}

#[test]
fn patch_add_then_remove() {
    let abc = || vec![named("a", &[]), named("b", &["a"]), named("c", &[])];
    let mut p = PluginDependencyPatch::default();
    p.add(id("a"), add_before("b"));
    p.add(id("a"), add_before("b"));
    p.add(id("a"), add_before("c"));
    assert!(is_cycle(&order_of(&p, abc())));
    p.remove(&id("a"), &add_before("b"));
    assert_eq!(order_of(&p, abc()).unwrap(), strings(&["b", "a", "c"]));
    p.remove(&id("x"), &add_before("c"));
    assert_eq!(order_of(&p, abc()).unwrap(), strings(&["b", "a", "c"]));
}

#[test]
fn patch_new_keeps_the_later_pair() {
    let p = PluginDependencyPatch::new(vec![
        (id("a"), vec![add_before("b")]),
        (id("a"), vec![add_before("c")]),
    ]);
    let r = order_of(&p, vec![named("a", &[]), named("b", &["a"]), named("c", &[])]);
    assert_eq!(r.unwrap(), strings(&["b", "a", "c"]));
}

#[test]
fn patch_from_pairs_keeps_every_pair() {
    let p = PluginDependencyPatch::from_iter(vec![(id("a"), add_before("b")), (id("a"), add_before("c"))]);
    let r = order_of(&p, vec![named("a", &[]), named("b", &["a"]), named("c", &[])]);
    assert!(is_cycle(&r));
}

fn named(name: &str, before: &[&str]) -> PluginRecord<String> {
    PluginRecord {
        id: id(name),
        type_id: TypeId::of::<Named>(),
        build_before: before.iter().map(|s| PluginDependency::Required(id(s))).collect(),
        build_after: vec![],
        plugin: name.to_string(),
    }
}

#[test]
fn added_dependency_wins_over_removed_one() {
    let mut g = PluginGraph::default();
    g.add_plugins(vec![named("a", &[]), named("b", &[])]);
    let patch = PluginDependencyPatch::new(vec![(
        id("b"),
        vec![
            UpdatePluginDependency::RemoveBefore(PluginDependency::Required(id("a"))),
            add_before("a"),
        ],
    )]);
    g.patch_plugin_dependencies(&patch);
    let order: Vec<String> = g.try_into_plugin_vec().unwrap().into_iter().map(|p| p.plugin).collect();
    assert_eq!(order, vec!["b".to_string(), "a".to_string()]);
}

#[test]
fn patch_on_unknown_id_is_ignored() {
    let mut g = PluginGraph::default();
    g.add_plugins(vec![named("a", &["b"]), named("b", &[])]);
    let patch = PluginDependencyPatch::new(vec![(id("nowhere"), vec![add_before("a")])]);
    g.patch_plugin_dependencies(&patch);
    let order: Vec<String> = g.try_into_plugin_vec().unwrap().into_iter().map(|p| p.plugin).collect();
    assert_eq!(order, vec!["a".to_string(), "b".to_string()]);
}

#[test]
fn removed_dependency_lets_a_cycle_go() {
    let mut g = PluginGraph::default();
    g.add_plugins(vec![named("a", &["b"]), named("b", &["a"])]);
    let patch = PluginDependencyPatch::new(vec![(
        id("b"),
        vec![UpdatePluginDependency::RemoveBefore(PluginDependency::Required(id("a")))],
    )]);
    g.patch_plugin_dependencies(&patch);
    let order: Vec<String> = g.try_into_plugin_vec().unwrap().into_iter().map(|p| p.plugin).collect();
    assert_eq!(order, vec!["a".to_string(), "b".to_string()]);
}

fn remove_after(s: &str) -> UpdatePluginDependency {
    UpdatePluginDependency::RemoveAfter(PluginDependency::Required(id(s)))
}

/// Each entry's dependencies, sorted, after the patches in turn.
fn deps_after(patches: &[&PluginDependencyPatch]) -> Vec<(Vec<String>, Vec<String>)> {
    let mut g = PluginGraph::default();
    g.add_plugins(vec![named("a", &["b"]), named("b", &[]), named("c", &[])]);
    for p in patches {
        g.patch_plugin_dependencies(p);
    }
    g.iter_plugins()
        .iter()
        .map(|e| {
            let mut before: Vec<String> = e.build_before().iter().map(|d| format!("{:?}", d)).collect();
            let mut after: Vec<String> = e.build_after().iter().map(|d| format!("{:?}", d)).collect();
            before.sort();
            after.sort();
            (before, after)
        })
        .collect()
}

#[test]
fn patch_order_and_repetition_do_not_matter() {
    let p1 = PluginDependencyPatch::from_iter(vec![(id("a"), add_before("c")), (id("c"), remove_after("a"))]);
    let p2 = PluginDependencyPatch::from_iter(vec![
        (id("a"), UpdatePluginDependency::RemoveBefore(PluginDependency::Required(id("b")))),
        (id("b"), add_before("c")),
    ]);
    let once = deps_after(&[&p1, &p2]);
    assert_eq!(deps_after(&[&p2, &p1]), once);
    assert_eq!(deps_after(&[&p2, &p1, &p1, &p2]), once);
    assert_eq!(once[1].0, vec![format!("{:?}", PluginDependency::Required(id("c")))]);
    assert!(once[0].0.contains(&format!("{:?}", PluginDependency::Required(id("c")))));
}

#[test]
fn removing_an_added_update_restores_the_patch_effect() {
    let mut p = PluginDependencyPatch::from_iter(vec![(id("b"), add_before("c"))]);
    let before = deps_after(&[&p]);
    p.add(id("a"), add_before("c"));
    assert_ne!(deps_after(&[&p]), before);
    p.remove(&id("a"), &add_before("c"));
    assert_eq!(deps_after(&[&p]), before);
}

#[test]
fn from_iter_merges_updates_of_one_id() {
    let merged = PluginDependencyPatch::from_iter(vec![
        (id("a"), add_before("c")),
        (id("b"), add_before("c")),
        (id("a"), remove_after("b")),
    ]);
    let grouped = PluginDependencyPatch::new(vec![
        (id("b"), vec![add_before("c")]),
        (id("a"), vec![remove_after("b"), add_before("c")]),
    ]);
    assert_eq!(deps_after(&[&merged]), deps_after(&[&grouped]));
}
