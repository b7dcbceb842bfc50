//! The sealing trait of [`Plugins`](crate::plugin::Plugins): only this crate implements it.

use vstd::prelude::*;

verus! {

/// Implemented for the types that represent a set of plugins.
pub trait PluginsSealed<Marker> {
}

} // verus!
