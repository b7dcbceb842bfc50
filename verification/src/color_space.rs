//! The plugin for WGSL color space utility functions.

use crate::plugin::Plugin;
use crate::plugin_id::{PluginDependency, PluginId};
use vstd::prelude::*;

verus! {

/// A plugin for WGSL color space utility functions.
pub struct ColorSpacePlugin;

impl Plugin for ColorSpacePlugin {
    fn name(&self) -> (r: &str)
        ensures
            r@ == "bevy_ui_render::color_space::ColorSpacePlugin"@,
    {
        "bevy_ui_render::color_space::ColorSpacePlugin"
    }

    /// The render plugin must be built before this one.
    fn build_after(&self) -> (r: Vec<PluginDependency>)
        ensures
            r@.len() == 1,
            r@[0]@ == ("bevy_render::RenderPlugin"@, true),
    {
        let mut deps: Vec<PluginDependency> = Vec::new();
        deps.push(PluginDependency::Required(PluginId::from_str("bevy_render::RenderPlugin")));
        deps
    }
}

} // verus!
