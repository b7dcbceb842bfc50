# bevy_app (plugin ordering)

A verified library for ordering application plugins by their declared dependencies.

- `plugin_id`, `plugin_type_id`, `plugin`: plugin ids (a type path, any text, or a random
  UUID), the dependencies a plugin declares (`build_before`, `build_after`, required or
  optional), and the `Plugin` trait.
- `dep_graph`: the directed graph of plugin nodes (petgraph), its topological sort, and a
  verified search for a dependency cycle.
- `plugin_graph`: the plugin graph, whose records know each plugin's type by its
  `TypeId`. Plugins are added (keeping the first under an id),
  overwritten, updated, or grouped under an alias; dependency patches add or remove
  dependencies of a plugin; `try_into_plugin_vec` gives the plugins in an order where every
  plugin comes after the plugins it depends on, or says which required plugin is missing
  or which plugins form a cycle. `laws` states what holds across operations: what every
  build order satisfies, that patches commute and apply once, that a plugin written in
  place is what a lookup then finds.
- `app_builder`: the builder that applications use; adding a plugin under an id already
  added overwrites it.
- `plugin_deps_patch`: dependency patches written as tokens (identifiers carry where they
  stand in the source, so that an invalid property is reported in place)
  (`ID: { build_before: [+a::B, -?"c"], build_after: [...] }, ...`): the grammar, a parser
  proved sound, complete and unambiguous against it, the updates a patch stands for, and
  the tokens of the expression that builds the patch.
- `manifest_config`: the macros' configuration (`macros.reexports`, `macros.prefixes` of a
  TOML document, read with toml_edit), the path of the configuration file under a
  directory, and the rule that picks a cached configuration for a directory.

`app/` holds what surrounds the library: the `plugin_deps_patch!` expansion over compiler
tokens, reading the configuration file with its cache, type names of plugin types, and
error types implementing `std::error::Error`.
