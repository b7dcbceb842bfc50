//! The entries of a plugin graph: the plugins held in one node, with the dependency
//! changes that patches made to that node.

use crate::plugin::Plugin;
use crate::plugin_graph::patch::{DependencyUpdate, UpdatePluginDependency};
use crate::plugin_id::{DependencyView, PluginDependency, PluginId};
use crate::plugin_type_id::{same_type, type_id_of};
use std::any::TypeId;
use vstd::prelude::*;

verus! {

/// A plugin as the graph sees it: its id, the id of its type, the dependencies it
/// declares, and the plugin value itself.
pub struct PluginRecord<T> {
    /// The id the plugin is registered under.
    pub id: PluginId,
    /// The plugin's type.
    pub type_id: TypeId,
    /// Plugins that must be built after this one.
    pub build_before: Vec<PluginDependency>,
    /// Plugins that must be built before this one.
    pub build_after: Vec<PluginDependency>,
    /// The plugin.
    pub plugin: T,
}

impl<P: Plugin + 'static> PluginRecord<P> {
    /// The record of a plugin, from what the plugin reports of itself.
    pub fn from_plugin(plugin: P) -> (r: PluginRecord<P>)
        ensures
            r.plugin == plugin,
    {
        let id = plugin.id();
        let type_id = type_id_of::<P>();
        let build_before = plugin.build_before();
        let build_after = plugin.build_after();
        PluginRecord { id, type_id, build_before, build_after, plugin }
    }
}

/// Error when getting a plugin in the [`PluginGraph`](crate::plugin_graph::PluginGraph).
#[derive(Debug)]
pub enum GetPluginError {
    /// The plugin with provided id is not of the expected type
    InvalidType(PluginId, &'static str),
    /// The plugin with given id was not added
    PluginNotAdded(PluginId),
}

impl GetPluginError {
    /// The error message.
    pub fn to_string(&self) -> (r: String)
        ensures
            r@ == match self {
                GetPluginError::InvalidType(id, expected) => "The plugin type with id "@ + id@
                    + " is not of the expected type "@ + expected@,
                GetPluginError::PluginNotAdded(id) => "The plugin with id "@ + id@ + " was not added"@,
            },
    {
        match self {
            GetPluginError::InvalidType(id, expected) => {
                let mut s = String::from_str("The plugin type with id ");
                s.append(id.as_str());
                s.append(" is not of the expected type ");
                s.append(expected);
                s
            },
            GetPluginError::PluginNotAdded(id) => {
                let mut s = String::from_str("The plugin with id ");
                s.append(id.as_str());
                s.append(" was not added");
                s
            },
        }
    }
}

/// The set of dependencies a sequence holds.
pub open spec fn dep_set(v: Seq<PluginDependency>) -> Set<DependencyView> {
    Set::new(|d: DependencyView| exists|j: int| 0 <= j < v.len() && #[trigger] v[j]@ == d)
}

/// No two elements of `v` are the same dependency.
pub open spec fn distinct_deps(v: Seq<PluginDependency>) -> bool {
    forall|a: int, b: int| 0 <= a < b < v.len() ==> v[a]@ != v[b]@
}

/// The `build_before` dependencies that the plugins of `records` declare.
pub open spec fn declared_before<T>(records: Seq<PluginRecord<T>>) -> Set<DependencyView> {
    Set::new(
        |d: DependencyView|
            exists|i: int| 0 <= i < records.len() && #[trigger] dep_set(records[i].build_before@).contains(d),
    )
}

/// The `build_after` dependencies that the plugins of `records` declare.
pub open spec fn declared_after<T>(records: Seq<PluginRecord<T>>) -> Set<DependencyView> {
    Set::new(
        |d: DependencyView|
            exists|i: int| 0 <= i < records.len() && #[trigger] dep_set(records[i].build_after@).contains(d),
    )
}

/// What an entry holds, as a value: its plugins, and the dependencies that patches added
/// and removed.
pub struct EntryModel<T> {
    pub records: Seq<PluginRecord<T>>,
    pub added_before: Set<DependencyView>,
    pub added_after: Set<DependencyView>,
    pub removed_before: Set<DependencyView>,
    pub removed_after: Set<DependencyView>,
}

impl<T> EntryModel<T> {
    /// An entry holding `records`, with no dependency update.
    pub open spec fn fresh(records: Seq<PluginRecord<T>>) -> Self {
        EntryModel {
            records,
            added_before: Set::empty(),
            added_after: Set::empty(),
            removed_before: Set::empty(),
            removed_after: Set::empty(),
        }
    }

    /// The plugins that must be built after this entry: those its plugins declare, less
    /// those removed, with those added.
    pub open spec fn build_before_set(self) -> Set<DependencyView> {
        declared_before(self.records).difference(self.removed_before).union(self.added_before)
    }

    /// The plugins that must be built before this entry: those its plugins declare, less
    /// those removed, with those added.
    pub open spec fn build_after_set(self) -> Set<DependencyView> {
        declared_after(self.records).difference(self.removed_after).union(self.added_after)
    }

    /// The entry after recording the updates of `updates`.
    pub open spec fn apply(self, updates: Set<DependencyUpdate>) -> Self {
        EntryModel {
            records: self.records,
            added_before: self.added_before.union(
                Set::new(|d: DependencyView| updates.contains(DependencyUpdate::AddBefore(d))),
            ),
            added_after: self.added_after.union(
                Set::new(|d: DependencyView| updates.contains(DependencyUpdate::AddAfter(d))),
            ),
            removed_before: self.removed_before.union(
                Set::new(|d: DependencyView| updates.contains(DependencyUpdate::RemoveBefore(d))),
            ),
            removed_after: self.removed_after.union(
                Set::new(|d: DependencyView| updates.contains(DependencyUpdate::RemoveAfter(d))),
            ),
        }
    }
}

/// Whether `v` holds `d`.
pub(crate) fn contains_dep(v: &Vec<PluginDependency>, d: &PluginDependency) -> (r: bool)
    ensures
        r == dep_set(v@).contains(d@),
{
    let mut i: usize = 0;
    while i < v.len()
        invariant
            i <= v@.len(),
            forall|j: int| 0 <= j < i ==> v@[j]@ != d@,
        decreases v@.len() - i,
    {
        if v[i] == *d {
            assert(v@[i as int]@ == d@);
            return true;
        }
        i = i + 1;
    }
    false
}

/// Adds `d` to `v` unless `v` holds it already.
pub(crate) fn insert_dep(v: &mut Vec<PluginDependency>, d: PluginDependency)
    ensures
        dep_set(final(v)@) == dep_set(old(v)@).insert(d@),
        distinct_deps(old(v)@) ==> distinct_deps(final(v)@),
{
    if !contains_dep(v, &d) {
        let ghost before = v@;
        v.push(d);
        assert(dep_set(v@) =~= dep_set(before).insert(d@)) by {
            assert forall|e: DependencyView| #[trigger] dep_set(v@).contains(e) implies dep_set(before).insert(d@).contains(e) by {
                let j = choose|j: int| 0 <= j < v@.len() && #[trigger] v@[j]@ == e;
                if j < before.len() {
                    assert(before[j]@ == e);
                }
            }
            assert forall|e: DependencyView| dep_set(before).insert(d@).contains(e) implies #[trigger] dep_set(v@).contains(e) by {
                if e == d@ {
                    assert(v@[v@.len() - 1]@ == e);
                } else {
                    let j = choose|j: int| 0 <= j < before.len() && #[trigger] before[j]@ == e;
                    assert(v@[j]@ == e);
                }
            }
        }
    } else {
        assert(dep_set(v@) =~= dep_set(v@).insert(d@));
    }
}

/// Adds to `r` the dependencies of `src` that `exclude` does not hold.
fn union_filtered(r: &mut Vec<PluginDependency>, src: &Vec<PluginDependency>, exclude: &Vec<PluginDependency>)
    requires
        distinct_deps(old(r)@),
    ensures
        distinct_deps(final(r)@),
        dep_set(final(r)@) == dep_set(old(r)@).union(dep_set(src@).difference(dep_set(exclude@))),
{
    let ghost start = dep_set(r@);
    let mut j: usize = 0;
    while j < src.len()
        invariant
            j <= src@.len(),
            distinct_deps(r@),
            dep_set(r@) == start.union(dep_set(src@.take(j as int)).difference(dep_set(exclude@))),
        decreases src@.len() - j,
    {
        let ghost before = dep_set(r@);
        if !contains_dep(exclude, &src[j]) {
            insert_dep(r, src[j].clone());
        }
        proof {
            let tj = src@.take(j as int);
            let tj1 = src@.take(j + 1);
            assert(dep_set(tj1) =~= dep_set(tj).insert(src@[j as int]@)) by {
                assert forall|e: DependencyView| #[trigger] dep_set(tj1).contains(e) implies dep_set(tj).insert(src@[j as int]@).contains(e) by {
                    let m = choose|m: int| 0 <= m < tj1.len() && #[trigger] tj1[m]@ == e;
                    if m < j {
                        assert(tj[m]@ == e);
                    }
                }
                assert forall|e: DependencyView| dep_set(tj).insert(src@[j as int]@).contains(e) implies #[trigger] dep_set(tj1).contains(e) by {
                    if e == src@[j as int]@ {
                        assert(tj1[j as int]@ == e);
                    } else {
                        let m = choose|m: int| 0 <= m < tj.len() && #[trigger] tj[m]@ == e;
                        assert(tj1[m]@ == e);
                    }
                }
            }
            assert(dep_set(r@) =~= start.union(dep_set(tj1).difference(dep_set(exclude@))));
        }
        j = j + 1;
    }
    proof {
        assert(src@.take(src@.len() as int) =~= src@);
    }
}

/// The plugins held in one node of the graph, with the dependency updates that patches
/// made to the node.
pub struct PluginEntry<T> {
    pub(crate) plugins: Vec<PluginRecord<T>>,
    pub(crate) add_before: Vec<PluginDependency>,
    pub(crate) add_after: Vec<PluginDependency>,
    pub(crate) remove_before: Vec<PluginDependency>,
    pub(crate) remove_after: Vec<PluginDependency>,
}

impl<T> PluginEntry<T> {
    /// The plugins of the entry, in the order in which they are built.
    pub closed spec fn records(&self) -> Seq<PluginRecord<T>> {
        self.plugins@
    }

    /// Dependencies added to `build_before` by patches.
    pub closed spec fn added_before(&self) -> Set<DependencyView> {
        dep_set(self.add_before@)
    }

    /// Dependencies added to `build_after` by patches.
    pub closed spec fn added_after(&self) -> Set<DependencyView> {
        dep_set(self.add_after@)
    }

    /// Dependencies removed from `build_before` by patches.
    pub closed spec fn removed_before(&self) -> Set<DependencyView> {
        dep_set(self.remove_before@)
    }

    /// Dependencies removed from `build_after` by patches.
    pub closed spec fn removed_after(&self) -> Set<DependencyView> {
        dep_set(self.remove_after@)
    }

    /// What the entry holds, as a value.
    pub open spec fn model(&self) -> EntryModel<T> {
        EntryModel {
            records: self.records(),
            added_before: self.added_before(),
            added_after: self.added_after(),
            removed_before: self.removed_before(),
            removed_after: self.removed_after(),
        }
    }

    /// The plugins that must be built after this entry.
    pub open spec fn spec_build_before(&self) -> Set<DependencyView> {
        self.model().build_before_set()
    }

    /// The plugins that must be built before this entry.
    pub open spec fn spec_build_after(&self) -> Set<DependencyView> {
        self.model().build_after_set()
    }

    /// The plugins of the entry.
    pub fn plugins(&self) -> (r: &[PluginRecord<T>])
        ensures
            r@ == self.records(),
    {
        self.plugins.as_slice()
    }

    /// The entry's plugins, in order.
    pub fn into_plugins(self) -> (r: Vec<PluginRecord<T>>)
        ensures
            r@ == self.records(),
    {
        self.plugins
    }

    /// The plugins that must be built after this entry, each once.
    pub fn build_before(&self) -> (r: Vec<PluginDependency>)
        ensures
            dep_set(r@) == self.spec_build_before(),
            distinct_deps(r@),
    {
        let mut r: Vec<PluginDependency> = Vec::new();
        let ghost records = self.plugins@;
        let mut i: usize = 0;
        while i < self.plugins.len()
            invariant
                records == self.plugins@,
                i <= records.len(),
                distinct_deps(r@),
                dep_set(r@) == declared_before(records.take(i as int)).difference(dep_set(self.remove_before@)),
            decreases records.len() - i,
        {
            union_filtered(&mut r, &self.plugins[i].build_before, &self.remove_before);
            proof {
                let ti = records.take(i as int);
                let ti1 = records.take(i + 1);
                assert(declared_before(ti1) =~= declared_before(ti).union(dep_set(records[i as int].build_before@))) by {
                    assert forall|d: DependencyView| #[trigger] declared_before(ti1).contains(d) implies declared_before(ti).union(dep_set(records[i as int].build_before@)).contains(d) by {
                        let m = choose|m: int| 0 <= m < ti1.len() && #[trigger] dep_set(ti1[m].build_before@).contains(d);
                        if m < i {
                            assert(ti[m] == ti1[m]);
                            assert(dep_set(ti[m].build_before@).contains(d));
                        }
                    }
                    assert forall|d: DependencyView| declared_before(ti).union(dep_set(records[i as int].build_before@)).contains(d) implies #[trigger] declared_before(ti1).contains(d) by {
                        if dep_set(records[i as int].build_before@).contains(d) {
                            assert(dep_set(ti1[i as int].build_before@).contains(d));
                        } else {
                            let m = choose|m: int| 0 <= m < ti.len() && #[trigger] dep_set(ti[m].build_before@).contains(d);
                            assert(ti[m] == ti1[m]);
                            assert(dep_set(ti1[m].build_before@).contains(d));
                        }
                    }
                }
                assert(dep_set(r@) =~= declared_before(ti1).difference(dep_set(self.remove_before@)));
            }
            i = i + 1;
        }
        proof {
            assert(records.take(records.len() as int) =~= records);
        }
        let none: Vec<PluginDependency> = Vec::new();
        union_filtered(&mut r, &self.add_before, &none);
        proof {
            assert(dep_set(none@) =~= Set::<DependencyView>::empty());
            assert(dep_set(r@) =~= self.spec_build_before());
        }
        r
    }

    /// The plugins that must be built before this entry, each once.
    pub fn build_after(&self) -> (r: Vec<PluginDependency>)
        ensures
            dep_set(r@) == self.spec_build_after(),
            distinct_deps(r@),
    {
        let mut r: Vec<PluginDependency> = Vec::new();
        let ghost records = self.plugins@;
        let mut i: usize = 0;
        while i < self.plugins.len()
            invariant
                records == self.plugins@,
                i <= records.len(),
                distinct_deps(r@),
                dep_set(r@) == declared_after(records.take(i as int)).difference(dep_set(self.remove_after@)),
            decreases records.len() - i,
        {
            union_filtered(&mut r, &self.plugins[i].build_after, &self.remove_after);
            proof {
                let ti = records.take(i as int);
                let ti1 = records.take(i + 1);
                assert(declared_after(ti1) =~= declared_after(ti).union(dep_set(records[i as int].build_after@))) by {
                    assert forall|d: DependencyView| #[trigger] declared_after(ti1).contains(d) implies declared_after(ti).union(dep_set(records[i as int].build_after@)).contains(d) by {
                        let m = choose|m: int| 0 <= m < ti1.len() && #[trigger] dep_set(ti1[m].build_after@).contains(d);
                        if m < i {
                            assert(ti[m] == ti1[m]);
                            assert(dep_set(ti[m].build_after@).contains(d));
                        }
                    }
                    assert forall|d: DependencyView| declared_after(ti).union(dep_set(records[i as int].build_after@)).contains(d) implies #[trigger] declared_after(ti1).contains(d) by {
                        if dep_set(records[i as int].build_after@).contains(d) {
                            assert(dep_set(ti1[i as int].build_after@).contains(d));
                        } else {
                            let m = choose|m: int| 0 <= m < ti.len() && #[trigger] dep_set(ti[m].build_after@).contains(d);
                            assert(ti[m] == ti1[m]);
                            assert(dep_set(ti1[m].build_after@).contains(d));
                        }
                    }
                }
                assert(dep_set(r@) =~= declared_after(ti1).difference(dep_set(self.remove_after@)));
            }
            i = i + 1;
        }
        proof {
            assert(records.take(records.len() as int) =~= records);
        }
        let none: Vec<PluginDependency> = Vec::new();
        union_filtered(&mut r, &self.add_after, &none);
        proof {
            assert(dep_set(none@) =~= Set::<DependencyView>::empty());
            assert(dep_set(r@) =~= self.spec_build_after());
        }
        r
    }

    /// A new entry holding `plugins`, with no dependency update.
    pub(crate) fn new(plugins: Vec<PluginRecord<T>>) -> (r: Self)
        ensures
            r.model() == EntryModel::fresh(plugins@),
    {
        let r = PluginEntry {
            plugins,
            remove_before: Vec::new(),
            remove_after: Vec::new(),
            add_before: Vec::new(),
            add_after: Vec::new(),
        };
        assert(dep_set(r.add_before@) =~= Set::<DependencyView>::empty());
        assert(dep_set(r.add_after@) =~= Set::<DependencyView>::empty());
        assert(dep_set(r.remove_before@) =~= Set::<DependencyView>::empty());
        assert(dep_set(r.remove_after@) =~= Set::<DependencyView>::empty());
        assert(r.model() == EntryModel::fresh(plugins@));
        r
    }

    /// Records a dependency update in the entry.
    pub(crate) fn apply_update(&mut self, update: UpdatePluginDependency)
        ensures
            final(self).model() == old(self).model().apply(set![update@]),
    {
        let ghost u = update@;
        let ghost m0 = self.model();
        match update {
            UpdatePluginDependency::AddBefore(d) => insert_dep(&mut self.add_before, d),
            UpdatePluginDependency::AddAfter(d) => insert_dep(&mut self.add_after, d),
            UpdatePluginDependency::RemoveBefore(d) => insert_dep(&mut self.remove_before, d),
            UpdatePluginDependency::RemoveAfter(d) => insert_dep(&mut self.remove_after, d),
        }
        proof {
            let m1 = m0.apply(set![u]);
            assert(self.model().added_before =~= m1.added_before);
            assert(self.model().added_after =~= m1.added_after);
            assert(self.model().removed_before =~= m1.removed_before);
            assert(self.model().removed_after =~= m1.removed_after);
        }
    }

    /// Position of the first plugin of the entry whose type is `type_id`.
    pub(crate) fn find_type(&self, type_id: &TypeId) -> (r: Option<usize>)
        ensures
            match r {
                Some(j) => j < self.records().len() && self.records()[j as int].type_id == *type_id
                    && forall|m: int| 0 <= m < j ==> #[trigger] self.records()[m].type_id != *type_id,
                None => forall|m: int|
                    0 <= m < self.records().len() ==> #[trigger] self.records()[m].type_id != *type_id,
            },
    {
        let mut j: usize = 0;
        while j < self.plugins.len()
            invariant
                j <= self.plugins@.len(),
                forall|m: int| 0 <= m < j ==> #[trigger] self.plugins@[m].type_id != *type_id,
            decreases self.plugins@.len() - j,
        {
            if same_type(&self.plugins[j].type_id, type_id) {
                return Some(j);
            }
            j = j + 1;
        }
        None
    }

    /// The plugin value at position `j`.
    pub(crate) fn plugin_at(&self, j: usize) -> (r: &T)
        requires
            j < self.records().len(),
        ensures
            *r == self.records()[j as int].plugin,
    {
        &self.plugins[j].plugin
    }

    /// The plugin value at position `j`, to change.
    pub(crate) fn plugin_at_mut(&mut self, j: usize) -> (r: &mut T)
        requires
            j < old(self).records().len(),
        ensures
            *r == old(self).records()[j as int].plugin,
            final(self).model() == (EntryModel {
                records: old(self).records().update(
                    j as int,
                    PluginRecord { plugin: *final(r), ..old(self).records()[j as int] },
                ),
                ..old(self).model()
            }),
    {
        &mut self.plugins[j].plugin
    }

    /// Replaces the plugin at position `j`; the dependency updates stay.
    pub(crate) fn replace_plugin(&mut self, j: usize, record: PluginRecord<T>)
        requires
            j < old(self).records().len(),
        ensures
            final(self).model() == (EntryModel {
                records: old(self).records().update(j as int, record),
                ..old(self).model()
            }),
    {
        self.plugins.set(j, record);
    }
}

} // verus!
