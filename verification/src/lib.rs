//! Plugin identifiers, plugin dependency declarations and the dependency graph that
//! orders plugins so that every plugin is built after the plugins it depends on; patches
//! of plugin dependencies, also as written in tokens; and the configuration that the
//! crate's macros read.

pub mod plugin_id;
pub mod plugin_type_id;
pub mod plugin;
pub mod dep_graph;
pub mod plugin_graph;
pub mod manifest_config;
pub mod controls;
pub mod color_space;
pub mod app_builder;
pub mod plugin_deps_patch;
