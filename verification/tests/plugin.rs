use bevy_app::color_space::ColorSpacePlugin;
use bevy_app::controls::ControlsPlugin;
use bevy_app::plugin::{Plugin, Plugins, PluginsState};
use bevy_app::plugin_id::{PluginDependency, PluginId};
use bevy_app::plugin_type_id::PluginTypeId;

#[derive(Default)]
struct EmptyPlugin2;
impl Plugin for EmptyPlugin2 {
    fn name(&self) -> &str {
        "plugin::EmptyPlugin2"
    }

    fn depends_on(&self) -> Vec<PluginTypeId> {
        vec![PluginTypeId::from_static_str("plugin::EmptyPlugin3")]
    }
}

#[derive(Default)]
struct EmptyPlugin3;
impl Plugin for EmptyPlugin3 {
    fn name(&self) -> &str {
        "plugin::EmptyPlugin3"
    }
}

#[test]
fn plugin_type_ids() {
    assert_eq!(
        vec![
            PluginTypeId::from_static_str("plugin::EmptyPlugin2"),
            PluginTypeId::from_static_str("plugin::EmptyPlugin3")
        ],
        (EmptyPlugin2::default(), EmptyPlugin3::default()).plugin_type_ids()
    );
}

#[test]
fn plugin_type_ids_of_nested_tuples() {
    let ids = ((EmptyPlugin2, (EmptyPlugin3,)), (), EmptyPlugin2).plugin_type_ids();
    assert_eq!(ids.len(), 3);
    assert_eq!(ids[2], PluginTypeId::from_static_str("plugin::EmptyPlugin2"));
    assert_eq!(().plugin_type_ids(), Vec::<PluginTypeId>::new());
}

#[test]
fn plugin_defaults() {
    let p = EmptyPlugin3;
    assert!(p.is_unique());
    assert!(p.depends_on().is_empty());
    assert_eq!(p.id(), PluginId::from_str("plugin::EmptyPlugin3"));
    assert!(p.build_before().is_empty());
    assert!(p.build_after().is_empty());
    assert_eq!(EmptyPlugin2.depends_on(), vec![PluginTypeId::from_static_str("plugin::EmptyPlugin3")]);
    assert_eq!(PluginTypeId::new(&p).to_string(), "plugin::EmptyPlugin3".to_string());
}

#[test]
fn plugins_state_order() {
    assert!(PluginsState::Adding < PluginsState::Ready);
    assert!(PluginsState::Ready < PluginsState::Finished);
    assert!(PluginsState::Finished < PluginsState::Cleaned);
}

#[test]
fn color_space_plugin_builds_after_render_plugin() {
    let p = ColorSpacePlugin;
    assert_eq!(p.name(), "bevy_ui_render::color_space::ColorSpacePlugin");
    assert_eq!(
        p.build_after(),
        vec![PluginDependency::Required(PluginId::from_str("bevy_render::RenderPlugin"))]
    );
    assert_eq!(ControlsPlugin.name(), "bevy_feathers::controls::ControlsPlugin");
    assert_eq!(ControlsPlugin.id(), PluginId::from_str("bevy_feathers::controls::ControlsPlugin"));
}

#[test]
fn random_ids_are_hyphenated_uuids() {
    let a = PluginId::random();
    let b = PluginId::random();
    assert_ne!(a, b);
    let s = a.as_str();
    assert_eq!(s.len(), 36);
    for (k, c) in s.chars().enumerate() {
        if [8, 13, 18, 23].contains(&k) {
            assert_eq!(c, '-');
        } else {
            assert!(c.is_ascii_hexdigit() && !c.is_ascii_uppercase());
        }
    }
}
