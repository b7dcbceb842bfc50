//! App builder: collects plugins and their dependencies, and gives them back in the order
//! in which they are built.

use crate::plugin_graph::entry::{EntryModel, GetPluginError, PluginRecord};
use crate::plugin_graph::patch::PluginDependencyPatch;
use crate::plugin_graph::{
    overwrite_all_plugins, first_of_type, flatten_outcome, record_seq, upset_all_plugins, GraphModel, PluginGraph,
    PluginGraphBuildError,
};
use crate::plugin_id::{is_v4_uuid_text, PluginDependency, PluginId};

use std::any::TypeId;
use vstd::prelude::*;

verus! {

/// App builder is used to build an app with the appropriate plugin order.
pub struct AppBuilder<T> {
    plugin_graph: PluginGraph<T>,
}

impl<T> View for AppBuilder<T> {
    type V = GraphModel<T>;

    closed spec fn view(&self) -> GraphModel<T> {
        self.plugin_graph@
    }
}

impl<T> AppBuilder<T> {
    /// The representation invariant.
    pub closed spec fn well_formed(&self) -> bool {
        self.plugin_graph.well_formed()
    }

    /// The graph of every builder has one entry per node id, and no two nodes with the
    /// same id.
    pub proof fn lemma_shape(&self)
        requires
            self.well_formed(),
        ensures
            self@.ids.len() == self@.entries.len(),
            self@.ids_distinct(),
    {
        self.plugin_graph.lemma_shape();
    }

    /// Returns an empty [`AppBuilder`].
    pub fn empty() -> (r: Self)
        ensures
            r.well_formed(),
            r@ == (GraphModel::<T> { ids: Seq::empty(), entries: Seq::empty(), aliases: Map::empty() }),
    {
        AppBuilder { plugin_graph: PluginGraph::default() }
    }

    /// Adds plugins to the graph.
    ///
    /// If a plugin with the same [`PluginId`] is already added, then it will be
    /// overwritten.
    pub fn add_plugins(&mut self, plugins: Vec<PluginRecord<T>>)
        requires
            old(self).well_formed(),
        ensures
            final(self).well_formed(),
            final(self)@ == overwrite_all_plugins(old(self)@, plugins@),
    {
        self.plugin_graph.overwrite_plugins(plugins);
    }

    /// Adds plugins to the graph as a single node with id `alias`, built in the given
    /// order.
    ///
    /// If a plugin with the same [`PluginId`] is already added, then it will be
    /// overwritten.
    pub fn add_plugins_as_alias(&mut self, alias: PluginId, plugins: Vec<PluginRecord<T>>)
        requires
            old(self).well_formed(),
        ensures
            final(self).well_formed(),
            final(self)@ == old(self)@.overwrite_alias(alias@, plugins@),
    {
        self.plugin_graph.overwrite_plugins_as_alias(alias, plugins);
    }

    /// Adds a build function as a plugin of type `type_id` with the given id and
    /// dependencies.
    pub fn add_build_with_id(
        &mut self,
        build: T,
        type_id: TypeId,
        before: Vec<PluginDependency>,
        after: Vec<PluginDependency>,
        id: PluginId,
    )
        requires
            old(self).well_formed(),
        ensures
            final(self).well_formed(),
            final(self)@ == old(self)@.overwrite_plugin(
                PluginRecord { id, type_id, build_before: before, build_after: after, plugin: build },
            ),
    {
        let ghost start = self@;
        let mut plugins: Vec<PluginRecord<T>> = Vec::new();
        plugins.push(PluginRecord { id, type_id, build_before: before, build_after: after, plugin: build });
        proof {
            assert(plugins@.drop_last() =~= Seq::<PluginRecord<T>>::empty());
            assert(overwrite_all_plugins(start, plugins@.drop_last()) == start);
        }
        self.plugin_graph.overwrite_plugins(plugins);
    }

    /// Adds a build function as a plugin of type `type_id` with a random id, which it
    /// returns.
    pub fn add_build(
        &mut self,
        build: T,
        type_id: TypeId,
        before: Vec<PluginDependency>,
        after: Vec<PluginDependency>,
    ) -> (r: PluginId)
        requires
            old(self).well_formed(),
        ensures
            final(self).well_formed(),
            is_v4_uuid_text(r@),
            exists|id: PluginId|
                id@ == r@ && #[trigger] final(self)@ == old(self)@.overwrite_plugin(
                    PluginRecord { id, type_id, build_before: before, build_after: after, plugin: build },
                ),
    {
        let id = PluginId::random();
        let r = id.clone();
        self.add_build_with_id(build, type_id, before, after, id);
        r
    }

    /// Updates plugins or inserts them.
    pub fn upset_plugins(&mut self, plugins: Vec<PluginRecord<T>>)
        requires
            old(self).well_formed(),
        ensures
            final(self).well_formed(),
            final(self)@ == upset_all_plugins(old(self)@, plugins@),
    {
        self.plugin_graph.upset_plugins(plugins);
    }

    /// Patches plugin dependencies, to fit a third party plugin into the project's
    /// plugin dependencies.
    pub fn patch_plugin_dependencies(&mut self, patch: &PluginDependencyPatch)
        requires
            old(self).well_formed(),
            patch.well_formed(),
        ensures
            final(self).well_formed(),
            final(self)@ == old(self)@.apply_patch(patch@),
    {
        self.plugin_graph.patch_plugin_dependencies(patch);
    }

    /// Gets a plugin of type `type_id` held by the plugin `id`.
    pub fn get_plugin(&self, id: &PluginId, type_id: &TypeId, expected_name: &'static str) -> (r: Result<&T, GetPluginError>)
        requires
            self.well_formed(),
        ensures
            match self@.resolve_node(id@) {
                None => r matches Err(GetPluginError::PluginNotAdded(e)) && e@ == id@,
                Some(i) => match first_of_type(self@.entries[i].records, *type_id) {
                    Some(j) => r matches Ok(p) && *p == self@.entries[i].records[j].plugin,
                    None => r matches Err(GetPluginError::InvalidType(e, n)) && e@ == id@ && n == expected_name,
                },
            },
    {
        self.plugin_graph.get_plugin(id, type_id, expected_name)
    }

    /// Gets a plugin of type `type_id` held by the plugin `id`, to change it.
    pub fn get_plugin_mut(&mut self, id: &PluginId, type_id: &TypeId, expected_name: &'static str) -> (r: Result<&mut T, GetPluginError>)
        requires
            old(self).well_formed(),
        ensures
            final(self).well_formed(),
            match old(self)@.resolve_node(id@) {
                None => r matches Err(GetPluginError::PluginNotAdded(e)) && e@ == id@ && final(self)@ == old(self)@,
                Some(i) => match first_of_type(old(self)@.entries[i].records, *type_id) {
                    Some(j) => r matches Ok(p) && *p == old(self)@.entries[i].records[j].plugin
                        && final(self)@ == old(self)@.write_plugin(id@, *type_id, *final(p)),
                    None => r matches Err(GetPluginError::InvalidType(e, n)) && e@ == id@ && n == expected_name
                        && final(self)@ == old(self)@,
                },
            },
    {
        self.plugin_graph.get_plugin_mut(id, type_id, expected_name)
    }

    /// Checks if a plugin with id `id` is added, on its own or in an alias group.
    pub fn contains_plugin_id(&self, id: &PluginId) -> (r: bool)
        requires
            self.well_formed(),
        ensures
            r == (self@.resolve_node(id@) is Some),
    {
        self.plugin_graph.contains_plugin_id(id)
    }

    /// The plugins in build order.
    pub fn try_into_plugin_vec(self) -> (r: Result<Vec<PluginRecord<T>>, PluginGraphBuildError>)
        requires
            self.well_formed(),
        ensures
            self@.is_plugin_vec_outcome(record_seq(r)),
            exists|s: Result<Seq<EntryModel<T>>, PluginGraphBuildError>|
                #[trigger] self@.is_sort_outcome(s) && record_seq(r) == flatten_outcome(s),
    {
        let ghost g = self@;
        let r = self.plugin_graph.try_into_plugin_vec();
        proof {
            let s = choose|s: Result<Seq<EntryModel<T>>, PluginGraphBuildError>|
                #[trigger] g.is_sort_outcome(s) && record_seq(r) == flatten_outcome(s);
            assert(g.is_sort_outcome(s));
        }
        r
    }
}

} // verus!
