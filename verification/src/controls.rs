//! The plugin that registers all `bevy_feathers` controls.

use crate::plugin::Plugin;
use vstd::prelude::*;

verus! {

/// Plugin which registers all `bevy_feathers` controls.
pub struct ControlsPlugin;

impl Plugin for ControlsPlugin {
    fn name(&self) -> (r: &str)
        ensures
            r@ == "bevy_feathers::controls::ControlsPlugin"@,
    {
        "bevy_feathers::controls::ControlsPlugin"
    }
}

} // verus!
