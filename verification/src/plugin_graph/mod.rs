//! [`PluginGraph`] is a graph of plugin dependencies, which gives the order in which
//! plugins are built.

pub mod entry;
pub mod laws;
pub mod patch;

use crate::dep_graph::{
    adjacency_well_formed, edgeless, find_cycle, graph_add_edge, graph_add_node, graph_adjacency,
    graph_new, graph_toposort, has_edge, ints, is_reverse_walk, is_topological_order, is_walk,
    on_cycle, DepGraph,
};
use crate::plugin_graph::entry::{
    dep_set, distinct_deps, EntryModel, GetPluginError, PluginEntry, PluginRecord,
};
use crate::plugin_graph::patch::{
    distinct_keys, lemma_patch_map_domain, patch_map, update_set, DependencyUpdate, PluginDependencyPatch,
    UpdatePluginDependency,
};
use crate::plugin_id::{DependencyView, PluginDependency, PluginId};

use std::any::TypeId;
use vstd::prelude::*;

verus! {

#[verifier::ext_equal]
/// What a plugin graph holds, as a value: the id of each node, the entry of each node
/// (by node index), and the aliases, which redirect a plugin id to the id of the node
/// that holds the plugin.
pub struct GraphModel<T> {
    pub ids: Seq<Seq<char>>,
    pub entries: Seq<EntryModel<T>>,
    pub aliases: Map<Seq<char>, Seq<char>>,
}

/// Position of the first record of type `t`.
pub open spec fn first_of_type<T>(records: Seq<PluginRecord<T>>, t: TypeId) -> Option<int>
    decreases records.len(),
{
    if records.len() == 0 {
        None
    } else if records[0].type_id == t {
        Some(0)
    } else {
        match first_of_type(records.drop_first(), t) {
            Some(j) => Some(j + 1),
            None => None,
        }
    }
}

proof fn lemma_first_of_type<T>(records: Seq<PluginRecord<T>>, t: TypeId, r: Option<int>)
    requires
        match r {
            Some(j) => 0 <= j < records.len() && records[j].type_id == t && forall|m: int|
                0 <= m < j ==> #[trigger] records[m].type_id != t,
            None => forall|m: int| 0 <= m < records.len() ==> #[trigger] records[m].type_id != t,
        },
    ensures
        first_of_type(records, t) == r,
    decreases records.len(),
{
    if records.len() > 0 && records[0].type_id != t {
        let rest = records.drop_first();
        let r2 = match r {
            Some(j) => Some(j - 1),
            None => None,
        };
        match r {
            Some(j) => {
                assert(j > 0);
                assert forall|m: int| 0 <= m < j - 1 implies #[trigger] rest[m].type_id != t by {
                    assert(rest[m] == records[m + 1]);
                }
                assert(rest[j - 1] == records[j]);
            },
            None => {
                assert forall|m: int| 0 <= m < rest.len() implies #[trigger] rest[m].type_id != t by {
                    assert(rest[m] == records[m + 1]);
                }
            },
        }
        lemma_first_of_type(rest, t, r2);
    } else if records.len() > 0 {
        match r {
            Some(j) => {
                if j > 0 {
                    assert(records[0].type_id != t);
                }
            },
            None => {
                assert(records[0].type_id != t);
            },
        }
    }
}

/// The map that a sequence of (id, alias) pairs stands for; a later pair replaces an
/// earlier pair with the same id.
pub open spec fn alias_map(s: Seq<(PluginId, PluginId)>) -> Map<Seq<char>, Seq<char>>
    decreases s.len(),
{
    if s.len() == 0 {
        Map::empty()
    } else {
        alias_map(s.drop_last()).insert(s.last().0@, s.last().1@)
    }
}

/// The aliases after redirecting the id of each record of `s` to `alias`.
pub open spec fn alias_all<T>(m: Map<Seq<char>, Seq<char>>, s: Seq<PluginRecord<T>>, alias: Seq<char>) -> Map<Seq<char>, Seq<char>>
    decreases s.len(),
{
    if s.len() == 0 {
        m
    } else {
        alias_all(m, s.drop_last(), alias).insert(s.last().id@, alias)
    }
}

proof fn lemma_alias_map_last(s: Seq<(PluginId, PluginId)>, k: Seq<char>, i: int)
    requires
        0 <= i < s.len(),
        s[i].0@ == k,
        forall|j: int| i < j < s.len() ==> #[trigger] s[j].0@ != k,
    ensures
        alias_map(s).contains_key(k),
        alias_map(s)[k] == s[i].1@,
    decreases s.len(),
{
    if i < s.len() - 1 {
        assert forall|j: int| i < j < s.drop_last().len() implies #[trigger] s.drop_last()[j].0@ != k by {
            assert(s.drop_last()[j] == s[j]);
        }
        assert(s.drop_last()[i] == s[i]);
        lemma_alias_map_last(s.drop_last(), k, i);
        assert(s[s.len() - 1].0@ != k);
    }
}

proof fn lemma_alias_map_absent(s: Seq<(PluginId, PluginId)>, k: Seq<char>)
    requires
        forall|j: int| 0 <= j < s.len() ==> #[trigger] s[j].0@ != k,
    ensures
        !alias_map(s).contains_key(k),
    decreases s.len(),
{
    if s.len() > 0 {
        assert forall|j: int| 0 <= j < s.drop_last().len() implies #[trigger] s.drop_last()[j].0@ != k by {
            assert(s.drop_last()[j] == s[j]);
        }
        lemma_alias_map_absent(s.drop_last(), k);
        assert(s[s.len() - 1].0@ != k);
    }
}

impl<T> GraphModel<T> {
    /// The node whose id is `id`.
    pub open spec fn node_of(self, id: Seq<char>) -> Option<int> {
        if exists|i: int| 0 <= i < self.ids.len() && self.ids[i] == id {
            Some(choose|i: int| 0 <= i < self.ids.len() && self.ids[i] == id)
        } else {
            None
        }
    }

    /// The id that `id` stands for: its alias when it has one, else itself.
    pub open spec fn resolve_id(self, id: Seq<char>) -> Seq<char> {
        if self.aliases.contains_key(id) {
            self.aliases[id]
        } else {
            id
        }
    }

    /// The node that holds the plugin `id`: the node with that id, or else the node of
    /// its alias.
    pub open spec fn resolve_node(self, id: Seq<char>) -> Option<int> {
        match self.node_of(id) {
            Some(i) => Some(i),
            None => if self.aliases.contains_key(id) {
                self.node_of(self.aliases[id])
            } else {
                None
            },
        }
    }

    /// No two nodes have the same id.
    pub open spec fn ids_distinct(self) -> bool {
        forall|a: int, b: int| 0 <= a < b < self.ids.len() ==> self.ids[a] != self.ids[b]
    }

    /// The graph with one more node.
    pub open spec fn push_node(self, id: Seq<char>, entry: EntryModel<T>) -> Self {
        GraphModel { ids: self.ids.push(id), entries: self.entries.push(entry), aliases: self.aliases }
    }

    /// Adding a plugin: a new node unless a node has the plugin's id already.
    pub open spec fn add_plugin(self, p: PluginRecord<T>) -> Self {
        if self.node_of(p.id@) is Some {
            self
        } else {
            self.push_node(p.id@, EntryModel::fresh(seq![p]))
        }
    }

    /// Updating or inserting a plugin: the first plugin of the same type in the node that
    /// holds the plugin's id is replaced; when that node holds no plugin of that type,
    /// nothing changes; when no node holds the id, a new node is added.
    pub open spec fn upset_plugin(self, p: PluginRecord<T>) -> Self {
        match self.resolve_node(p.id@) {
            Some(i) => match first_of_type(self.entries[i].records, p.type_id) {
                Some(j) => GraphModel {
                    entries: self.entries.update(
                        i,
                        EntryModel { records: self.entries[i].records.update(j, p), ..self.entries[i] },
                    ),
                    ..self
                },
                None => self,
            },
            None => self.push_node(p.id@, EntryModel::fresh(seq![p])),
        }
    }

    /// Adding plugins as one node with id `alias`, unless a node has that id already;
    /// the ids of the plugins become aliases of `alias`.
    pub open spec fn add_alias(self, alias: Seq<char>, s: Seq<PluginRecord<T>>) -> Self {
        if self.node_of(alias) is Some {
            self
        } else {
            GraphModel {
                ids: self.ids.push(alias),
                entries: self.entries.push(EntryModel::fresh(s)),
                aliases: alias_all(self.aliases, s, alias),
            }
        }
    }

    /// Adding a plugin in place of the node that has its id, if any: that node then holds
    /// the plugin alone, with no dependency update; otherwise a new node.
    pub open spec fn overwrite_plugin(self, p: PluginRecord<T>) -> Self {
        match self.node_of(p.id@) {
            Some(i) => GraphModel { entries: self.entries.update(i, EntryModel::fresh(seq![p])), ..self },
            None => self.push_node(p.id@, EntryModel::fresh(seq![p])),
        }
    }

    /// Adding plugins as one node with id `alias`, in place of the node that has that id,
    /// if any; the ids of the plugins become aliases of `alias`.
    pub open spec fn overwrite_alias(self, alias: Seq<char>, s: Seq<PluginRecord<T>>) -> Self {
        match self.node_of(alias) {
            Some(i) => GraphModel {
                entries: self.entries.update(i, EntryModel::fresh(s)),
                aliases: alias_all(self.aliases, s, alias),
                ..self
            },
            None => GraphModel {
                ids: self.ids.push(alias),
                entries: self.entries.push(EntryModel::fresh(s)),
                aliases: alias_all(self.aliases, s, alias),
            },
        }
    }

    /// Writing `v` as the plugin of the first record of type `t` in the node that holds the
    /// plugin `id`; nothing changes when there is no such record.
    pub open spec fn write_plugin(self, id: Seq<char>, t: TypeId, v: T) -> Self {
        match self.resolve_node(id) {
            Some(i) => match first_of_type(self.entries[i].records, t) {
                Some(j) => GraphModel {
                    entries: self.entries.update(
                        i,
                        EntryModel {
                            records: self.entries[i].records.update(j, PluginRecord { plugin: v, ..self.entries[i].records[j] }),
                            ..self.entries[i]
                        },
                    ),
                    ..self
                },
                None => self,
            },
            None => self,
        }
    }

    /// Applying a patch: each node whose id the patch lists records the listed updates.
    pub open spec fn apply_patch(self, patch: Map<Seq<char>, Set<DependencyUpdate>>) -> Self {
        GraphModel {
            entries: Seq::new(
                self.entries.len(),
                |i: int|
                    if patch.contains_key(self.ids[i]) {
                        self.entries[i].apply(patch[self.ids[i]])
                    } else {
                        self.entries[i]
                    },
            ),
            ..self
        }
    }
}

impl<T> GraphModel<T> {
    /// The node a dependency `d` of node `i` leads to: the node of the id the dependency
    /// stands for, unless that id is the id of `i` itself.
    pub open spec fn dep_node(self, i: int, d: DependencyView) -> Option<int> {
        if self.resolve_id(d.0) == self.ids[i] {
            None
        } else {
            self.node_of(self.resolve_id(d.0))
        }
    }

    /// Dependency `d` of node `i` is required, and no node has the id it stands for.
    pub open spec fn is_missing(self, i: int, d: DependencyView) -> bool {
        &&& d.1
        &&& self.resolve_id(d.0) != self.ids[i]
        &&& self.node_of(self.resolve_id(d.0)) is None
    }

    /// The edge from `a` to `b` comes from one of the dependencies in `deps` of node `i`:
    /// `deps` lists plugins to build before `i` when `after` holds, else plugins to build
    /// after `i`.
    pub open spec fn list_edge(self, i: int, deps: Set<DependencyView>, after: bool, a: int, b: int) -> bool {
        if after {
            b == i && exists|d: DependencyView| #[trigger] deps.contains(d) && self.dep_node(i, d) == Some(a)
        } else {
            a == i && exists|d: DependencyView| #[trigger] deps.contains(d) && self.dep_node(i, d) == Some(b)
        }
    }

    /// The edge from `a` to `b` comes from a dependency of node `i`.
    pub open spec fn entry_edge(self, i: int, a: int, b: int) -> bool {
        ||| self.list_edge(i, self.entries[i].build_after_set(), true, a, b)
        ||| self.list_edge(i, self.entries[i].build_before_set(), false, a, b)
    }

    /// Plugin node `a` must be built before plugin node `b`.
    pub open spec fn dep_edge(self, a: int, b: int) -> bool {
        exists|i: int| 0 <= i < self.ids.len() && #[trigger] self.entry_edge(i, a, b)
    }

    /// Some node has a required dependency that no node has the id of.
    pub open spec fn has_missing(self) -> bool {
        exists|i: int, d: DependencyView|
            0 <= i < self.ids.len() && (self.entries[i].build_after_set().contains(d)
                || self.entries[i].build_before_set().contains(d)) && #[trigger] self.is_missing(i, d)
    }

    /// `m` is the id of a missing required dependency.
    pub open spec fn is_missing_id(self, m: Seq<char>) -> bool {
        exists|i: int, d: DependencyView|
            0 <= i < self.ids.len() && (self.entries[i].build_after_set().contains(d)
                || self.entries[i].build_before_set().contains(d)) && #[trigger] self.is_missing(i, d)
                && m == self.resolve_id(d.0)
    }

    /// `ord` lists every node once, each node after every node it must be built after.
    pub open spec fn is_build_order(self, ord: Seq<int>) -> bool {
        &&& ord.len() == self.ids.len()
        &&& ord.no_duplicates()
        &&& forall|k: int| 0 <= k < ord.len() ==> 0 <= #[trigger] ord[k] < self.ids.len()
        &&& forall|p: int, q: int|
            0 <= p < ord.len() && 0 <= q < ord.len() && #[trigger] self.dep_edge(ord[p], ord[q]) ==> p < q
    }

    /// Each node of `ns` must be built before the node listed before it.
    pub open spec fn is_reverse_dep_walk(self, ns: Seq<int>) -> bool {
        forall|k: int| 0 <= k < ns.len() - 1 ==> self.dep_edge(ns[k + 1], #[trigger] ns[k])
    }

    /// `cyc` is the ids of a cycle of dependencies, listed backwards: it starts and ends
    /// with the same id, each plugin must be built before the one listed before it, and no
    /// id after the first is listed twice.
    pub open spec fn is_dependency_cycle(self, cyc: Seq<Seq<char>>) -> bool {
        exists|ns: Seq<int>|
            #![trigger self.is_reverse_dep_walk(ns)]
            self.node_seq_matches(ns, cyc) && ns.len() >= 2 && ns[0] == ns[ns.len() - 1]
                && self.is_reverse_dep_walk(ns) && forall|i: int, j: int| 1 <= i < j < ns.len() ==> ns[i] != ns[j]
    }

    /// `adj` holds exactly the dependency edges of the nodes.
    pub open spec fn is_dependency_adjacency(self, adj: Seq<Seq<int>>) -> bool {
        &&& adj.len() == self.ids.len()
        &&& adjacency_well_formed(adj)
        &&& forall|a: int, b: int| #[trigger] has_edge(adj, a, b) <==> self.dep_edge(a, b)
    }

    /// The entries of the nodes listed by `ord`, in that order.
    pub open spec fn entries_in_order(self, ord: Seq<int>) -> Seq<EntryModel<T>> {
        Seq::new(ord.len(), |k: int| self.entries[ord[k]])
    }

    /// `ns` are the nodes whose ids `cyc` lists.
    pub open spec fn node_seq_matches(self, ns: Seq<int>, cyc: Seq<Seq<char>>) -> bool {
        &&& ns.len() == cyc.len()
        &&& forall|k: int| 0 <= k < ns.len() ==> 0 <= #[trigger] ns[k] < self.ids.len() && self.ids[ns[k]] == cyc[k]
    }
}

proof fn lemma_list_edge_insert<T>(g: GraphModel<T>, i: int, s: Set<DependencyView>, dv: DependencyView, after: bool)
    ensures
        forall|a: int, b: int|
            g.list_edge(i, s.insert(dv), after, a, b) <==> (g.list_edge(i, s, after, a, b) || (after && b == i
                && g.dep_node(i, dv) == Some(a)) || (!after && a == i && g.dep_node(i, dv) == Some(b))),
{
    assert forall|a: int, b: int|
        g.list_edge(i, s.insert(dv), after, a, b) <==> (g.list_edge(i, s, after, a, b) || (after && b == i
            && g.dep_node(i, dv) == Some(a)) || (!after && a == i && g.dep_node(i, dv) == Some(b))) by {
        if after {
            if g.list_edge(i, s.insert(dv), after, a, b) {
                let d = choose|d: DependencyView| #[trigger] s.insert(dv).contains(d) && g.dep_node(i, d) == Some(a);
                if d != dv {
                    assert(s.contains(d));
                }
            }
            if g.list_edge(i, s, after, a, b) {
                let d = choose|d: DependencyView| #[trigger] s.contains(d) && g.dep_node(i, d) == Some(a);
                assert(s.insert(dv).contains(d));
            }
            if b == i && g.dep_node(i, dv) == Some(a) {
                assert(s.insert(dv).contains(dv));
            }
        } else {
            if g.list_edge(i, s.insert(dv), after, a, b) {
                let d = choose|d: DependencyView| #[trigger] s.insert(dv).contains(d) && g.dep_node(i, d) == Some(b);
                if d != dv {
                    assert(s.contains(d));
                }
            }
            if g.list_edge(i, s, after, a, b) {
                let d = choose|d: DependencyView| #[trigger] s.contains(d) && g.dep_node(i, d) == Some(b);
                assert(s.insert(dv).contains(d));
            }
            if a == i && g.dep_node(i, dv) == Some(b) {
                assert(s.insert(dv).contains(dv));
            }
        }
    }
}

proof fn lemma_add_edge(adj: Seq<Seq<int>>, x: int, y: int)
    requires
        0 <= x < adj.len(),
    ensures
        forall|a: int, b: int|
            has_edge(adj.update(x, seq![y] + adj[x]), a, b) <==> (has_edge(adj, a, b) || (a == x && b == y)),
{
    let adj2 = adj.update(x, seq![y] + adj[x]);
    assert forall|a: int, b: int| has_edge(adj2, a, b) <==> (has_edge(adj, a, b) || (a == x && b == y)) by {
        if a == x {
            assert((seq![y] + adj[x])[0] == y);
            if has_edge(adj2, a, b) && b != y {
                let w = choose|w: int| 0 <= w < adj2[a].len() && adj2[a][w] == b;
                assert(adj[x][w - 1] == b);
            }
            if has_edge(adj, a, b) {
                let w = choose|w: int| 0 <= w < adj[a].len() && adj[a][w] == b;
                assert(adj2[a][w + 1] == b);
            }
        }
    }
}

/// Error when the build order of a plugin graph cannot be made.
#[derive(Debug)]
pub enum PluginGraphBuildError {
    /// A required dependency names a plugin that was not added.
    MissingRequiredPlugin(PluginId),
    /// The dependencies form a cycle; the ids of the cycle, listed backwards.
    CircularDependency(Vec<PluginId>),
}

impl PluginGraphBuildError {
    /// The error message.
    pub fn to_string(&self) -> (r: String)
        ensures
            r@ == match self {
                PluginGraphBuildError::MissingRequiredPlugin(id) => "Missing required plugin: '"@ + id@ + "'"@,
                PluginGraphBuildError::CircularDependency(ids) => "Circular dependency detected with plugin: '"@
                    + joined_ids(ids@) + "'"@,
            },
    {
        match self {
            PluginGraphBuildError::MissingRequiredPlugin(id) => {
                let mut s = String::from_str("Missing required plugin: '");
                s.append(id.as_str());
                s.append("'");
                s
            },
            PluginGraphBuildError::CircularDependency(ids) => {
                let mut s = String::from_str("Circular dependency detected with plugin: '");
                let ghost head = s@;
                let mut k: usize = 0;
                while k < ids.len()
                    invariant
                        k <= ids@.len(),
                        s@ == head + joined_ids(ids@.take(k as int)),
                    decreases ids@.len() - k,
                {
                    if k > 0 {
                        s.append(" -> ");
                    }
                    s.append(ids[k].as_str());
                    proof {
                        assert(ids@.take(k + 1).drop_last() =~= ids@.take(k as int));
                        assert(ids@.take(k + 1).last() == ids@[k as int]);
                        assert(s@ =~= head + joined_ids(ids@.take(k + 1)));
                    }
                    k = k + 1;
                }
                proof {
                    assert(ids@.take(ids@.len() as int) =~= ids@);
                }
                s.append("'");
                s
            },
        }
    }
}

/// A result of sorting, with each entry taken as a value.
pub open spec fn entry_models<T>(r: Result<Vec<PluginEntry<T>>, PluginGraphBuildError>) -> Result<
    Seq<EntryModel<T>>,
    PluginGraphBuildError,
> {
    match r {
        Ok(es) => Ok(es@.map_values(|e: PluginEntry<T>| e.model())),
        Err(e) => Err(e),
    }
}

/// A result holding plugins, with the plugins as a sequence.
pub open spec fn record_seq<T>(r: Result<Vec<PluginRecord<T>>, PluginGraphBuildError>) -> Result<
    Seq<PluginRecord<T>>,
    PluginGraphBuildError,
> {
    match r {
        Ok(rs) => Ok(rs@),
        Err(e) => Err(e),
    }
}

impl<T> GraphModel<T> {
    /// What sorting the nodes gives: an error naming a missing required plugin when one is
    /// missing (and only then); otherwise the entries in a build order, or the ids of a
    /// dependency cycle when there is none.
    pub open spec fn is_sort_outcome(self, r: Result<Seq<EntryModel<T>>, PluginGraphBuildError>) -> bool {
        &&& (self.has_missing() ==> r matches Err(PluginGraphBuildError::MissingRequiredPlugin(_)))
        &&& (r matches Err(PluginGraphBuildError::MissingRequiredPlugin(m)) ==> self.has_missing()
            && self.is_missing_id(m@))
        &&& !self.has_missing() ==> exists|adj: Seq<Seq<int>>|
            #[trigger] self.is_dependency_adjacency(adj) && match r {
                Ok(es) => exists|ord: Seq<int>| #[trigger] self.is_build_order(ord) && es == self.entries_in_order(ord),
                Err(PluginGraphBuildError::CircularDependency(cyc)) => self.is_dependency_cycle(id_views(cyc@)),
                Err(PluginGraphBuildError::MissingRequiredPlugin(_)) => false,
            }
    }

    /// What listing the plugins in build order gives: as [`Self::is_sort_outcome`], with
    /// the plugins of the entries, entry after entry, in place of the entries.
    pub open spec fn is_plugin_vec_outcome(self, r: Result<Seq<PluginRecord<T>>, PluginGraphBuildError>) -> bool {
        &&& (self.has_missing() ==> r matches Err(PluginGraphBuildError::MissingRequiredPlugin(_)))
        &&& (r matches Err(PluginGraphBuildError::MissingRequiredPlugin(m)) ==> self.has_missing()
            && self.is_missing_id(m@))
        &&& !self.has_missing() ==> exists|adj: Seq<Seq<int>>|
            #[trigger] self.is_dependency_adjacency(adj) && match r {
                Ok(rs) => exists|ord: Seq<int>|
                    #[trigger] self.is_build_order(ord) && rs == flatten_records(self.entries_in_order(ord)),
                Err(PluginGraphBuildError::CircularDependency(cyc)) => self.is_dependency_cycle(id_views(cyc@)),
                Err(PluginGraphBuildError::MissingRequiredPlugin(_)) => false,
            }
    }
}

/// A result of sorting with each entry replaced by its plugins, entry after entry.
pub open spec fn flatten_outcome<T>(s: Result<Seq<EntryModel<T>>, PluginGraphBuildError>) -> Result<
    Seq<PluginRecord<T>>,
    PluginGraphBuildError,
> {
    match s {
        Ok(es) => Ok(flatten_records(es)),
        Err(e) => Err(e),
    }
}

/// The plugins of the entries, entry after entry.
pub open spec fn flatten_records<T>(es: Seq<EntryModel<T>>) -> Seq<PluginRecord<T>>
    decreases es.len(),
{
    if es.len() == 0 {
        Seq::empty()
    } else {
        flatten_records(es.drop_last()) + es.last().records
    }
}

/// The texts of the ids.
pub open spec fn id_views(ids: Seq<PluginId>) -> Seq<Seq<char>> {
    ids.map_values(|x: PluginId| x@)
}

/// The ids, separated by `" -> "`.
pub open spec fn joined_ids(ids: Seq<PluginId>) -> Seq<char>
    decreases ids.len(),
{
    if ids.len() == 0 {
        Seq::empty()
    } else if ids.len() == 1 {
        ids[0]@
    } else {
        joined_ids(ids.drop_last()) + " -> "@ + ids.last()@
    }
}

/// The graph after adding each plugin of `s` in order.
pub open spec fn add_all_plugins<T>(g: GraphModel<T>, s: Seq<PluginRecord<T>>) -> GraphModel<T>
    decreases s.len(),
{
    if s.len() == 0 {
        g
    } else {
        add_all_plugins(g, s.drop_last()).add_plugin(s.last())
    }
}

/// The graph after adding each plugin of `s` in order, in place of the node with its id.
pub open spec fn overwrite_all_plugins<T>(g: GraphModel<T>, s: Seq<PluginRecord<T>>) -> GraphModel<T>
    decreases s.len(),
{
    if s.len() == 0 {
        g
    } else {
        overwrite_all_plugins(g, s.drop_last()).overwrite_plugin(s.last())
    }
}

/// The graph after updating or inserting each plugin of `s` in order.
pub open spec fn upset_all_plugins<T>(g: GraphModel<T>, s: Seq<PluginRecord<T>>) -> GraphModel<T>
    decreases s.len(),
{
    if s.len() == 0 {
        g
    } else {
        upset_all_plugins(g, s.drop_last()).upset_plugin(s.last())
    }
}

/// A graph of plugin dependencies.
pub struct PluginGraph<T> {
    node2entry: Vec<PluginEntry<T>>,
    node2id: Vec<PluginId>,
    /// aliases redirect the first [`PluginId`] to the second [`PluginId`]
    aliases: Vec<(PluginId, PluginId)>,
    graph: DepGraph,
}

impl<T> View for PluginGraph<T> {
    type V = GraphModel<T>;

    closed spec fn view(&self) -> GraphModel<T> {
        GraphModel {
            ids: self.node2id@.map_values(|x: PluginId| x@),
            entries: self.node2entry@.map_values(|e: PluginEntry<T>| e.model()),
            aliases: alias_map(self.aliases@),
        }
    }
}

impl<T> PluginGraph<T> {
    /// The dependency edges held in the graph.
    pub closed spec fn adjacency(&self) -> Seq<Seq<int>> {
        graph_adjacency(self.graph)
    }

    /// The representation invariant, edges aside.
    pub closed spec fn structured(&self) -> bool {
        &&& self.node2entry@.len() == self.node2id@.len()
        &&& self@.ids_distinct()
        &&& graph_adjacency(self.graph).len() == self.node2id@.len()
        &&& adjacency_well_formed(graph_adjacency(self.graph))
    }

    /// The representation invariant of a graph whose edges are not built yet.
    pub open spec fn well_formed(&self) -> bool {
        &&& self.structured()
        &&& self.adjacency() == edgeless(self@.ids.len())
    }

    /// Every graph has one entry per node id, and no two nodes with the same id.
    pub proof fn lemma_shape(&self)
        requires
            self.structured(),
        ensures
            self@.ids.len() == self@.entries.len(),
            self@.ids_distinct(),
    {
    }

    proof fn lemma_view(&self)
        requires
            self.structured(),
        ensures
            self@.ids.len() == self@.entries.len(),
            self@.ids.len() == self.node2id@.len(),
            self@.entries.len() == self.node2entry@.len(),
            forall|i: int| 0 <= i < self@.ids.len() ==> #[trigger] self@.ids[i] == self.node2id@[i]@,
            forall|i: int| 0 <= i < self@.entries.len() ==> #[trigger] self@.entries[i] == self.node2entry@[i].model(),
    {
    }

    /// An empty graph.
    pub fn default() -> (r: Self)
        ensures
            r.well_formed(),
            r@ == (GraphModel::<T> { ids: Seq::empty(), entries: Seq::empty(), aliases: Map::empty() }),
    {
        let r = PluginGraph {
            node2entry: Vec::new(),
            node2id: Vec::new(),
            aliases: Vec::new(),
            graph: graph_new(),
        };
        assert(r@.ids =~= Seq::<Seq<char>>::empty());
        assert(r@.entries =~= Seq::<EntryModel<T>>::empty());
        assert(r.adjacency() =~= edgeless(0));
        r
    }

    /// The node with id `id`.
    fn find_node(&self, id: &PluginId) -> (r: Option<usize>)
        requires
            self.structured(),
        ensures
            match r {
                Some(i) => self@.node_of(id@) == Some(i as int) && i < self@.ids.len(),
                None => self@.node_of(id@) is None,
            },
    {
        let mut i: usize = 0;
        while i < self.node2id.len()
            invariant
                self.structured(),
                i <= self.node2id@.len(),
                forall|j: int| 0 <= j < i ==> self.node2id@[j]@ != id@,
            decreases self.node2id@.len() - i,
        {
            if self.node2id[i] == *id {
                proof {
                    assert(self@.ids[i as int] == id@);
                    let c = choose|c: int| 0 <= c < self@.ids.len() && self@.ids[c] == id@;
                    assert(c == i) by {
                        if c < i {
                            assert(self@.ids[c] != self@.ids[i as int]);
                        } else if c > i {
                            assert(self@.ids[i as int] != self@.ids[c]);
                        }
                    }
                }
                return Some(i);
            }
            i = i + 1;
        }
        proof {
            assert forall|c: int| 0 <= c < self@.ids.len() implies self@.ids[c] != id@ by {
                assert(self@.ids[c] == self.node2id@[c]@);
            }
        }
        None
    }

    /// The alias of `id`, if it has one.
    fn alias_of(&self, id: &PluginId) -> (r: Option<&PluginId>)
        ensures
            match r {
                Some(a) => self@.aliases.contains_key(id@) && self@.aliases[id@] == a@,
                None => !self@.aliases.contains_key(id@),
            },
    {
        let mut i: usize = self.aliases.len();
        while i > 0
            invariant
                i <= self.aliases@.len(),
                forall|j: int| i <= j < self.aliases@.len() ==> #[trigger] self.aliases@[j].0@ != id@,
            decreases i,
        {
            i = i - 1;
            if self.aliases[i].0 == *id {
                proof {
                    lemma_alias_map_last(self.aliases@, id@, i as int);
                }
                return Some(&self.aliases[i].1);
            }
        }
        proof {
            lemma_alias_map_absent(self.aliases@, id@);
        }
        None
    }

    /// The node that holds the plugin `id`: the node with that id, or else the node of its
    /// alias.
    fn resolve_node(&self, id: &PluginId) -> (r: Option<usize>)
        requires
            self.structured(),
        ensures
            match r {
                Some(i) => self@.resolve_node(id@) == Some(i as int) && i < self@.ids.len(),
                None => self@.resolve_node(id@) is None,
            },
    {
        match self.find_node(id) {
            Some(i) => Some(i),
            None => match self.alias_of(id) {
                Some(a) => self.find_node(a),
                None => None,
            },
        }
    }

    /// The id that `id` stands for: its alias when it has one, else itself.
    fn resolve_id(&self, id: &PluginId) -> (r: PluginId)
        ensures
            r@ == self@.resolve_id(id@),
    {
        match self.alias_of(id) {
            Some(a) => a.clone(),
            None => id.clone(),
        }
    }

    /// Adds a node with id `id` holding `entry`.
    fn push_node(&mut self, id: PluginId, entry: PluginEntry<T>)
        requires
            old(self).well_formed(),
            old(self)@.node_of(id@) is None,
        ensures
            final(self).well_formed(),
            final(self)@ == old(self)@.push_node(id@, entry.model()),
    {
        let ghost old_view = self@;
        proof {
            self.lemma_view();
        }
        let ghost e = entry.model();
        let ghost idv = id@;
        graph_add_node(&mut self.graph, id.clone());
        self.node2entry.push(entry);
        self.node2id.push(id);
        proof {
            assert(self@.ids =~= old_view.ids.push(idv));
            assert(self@.entries =~= old_view.entries.push(e));
            assert(self@.ids_distinct()) by {
                assert forall|a: int, b: int| 0 <= a < b < self@.ids.len() implies self@.ids[a] != self@.ids[b] by {
                    if b == old_view.ids.len() {
                        assert(self@.ids[a] == old_view.ids[a]);
                        assert(old_view.ids[a] != idv);
                    } else {
                        assert(self@.ids[a] == old_view.ids[a]);
                        assert(self@.ids[b] == old_view.ids[b]);
                    }
                }
            }
            assert(self.adjacency() =~= edgeless(self@.ids.len()));
        }
    }

    /// Adds plugins, each in a node of its own; a plugin whose id a node has already is
    /// skipped.
    pub fn add_plugins(&mut self, plugins: Vec<PluginRecord<T>>)
        requires
            old(self).well_formed(),
        ensures
            final(self).well_formed(),
            final(self)@ == add_all_plugins(old(self)@, plugins@),
    {
        let ghost start = self@;
        let ghost all = plugins@;
        let mut rest = plugins;
        proof {
            assert(all.take(0) =~= Seq::<PluginRecord<T>>::empty());
        }
        // `rest` holds the plugins not added yet, in order.
        while rest.len() > 0
            invariant
                self.well_formed(),
                rest@.len() <= all.len(),
                rest@ == all.skip(all.len() - rest@.len()),
                self@ == add_all_plugins(start, all.take(all.len() - rest@.len())),
            decreases rest@.len(),
        {
            let ghost done = all.len() - rest@.len();
            let plugin = rest.remove(0);
            assert(plugin == all[done]);
            assert(rest@ =~= all.skip(done + 1));
            let id = plugin.id.clone();
            if self.find_node(&id).is_none() {
                let mut one: Vec<PluginRecord<T>> = Vec::new();
                one.push(plugin);
                assert(one@ =~= seq![all[done]]);
                self.push_node(id, PluginEntry::new(one));
            }
            proof {
                assert(all.take(done + 1).drop_last() =~= all.take(done));
                assert(all.take(done + 1).last() == all[done]);
            }
        }
        proof {
            assert(all.take(all.len() as int) =~= all);
        }
    }
}

impl<T> PluginGraph<T> {
    /// Replaces the entry of node `i`.
    fn replace_entry(&mut self, i: usize, entry: PluginEntry<T>)
        requires
            old(self).well_formed(),
            i < old(self)@.entries.len(),
        ensures
            final(self).well_formed(),
            final(self)@ == (GraphModel { entries: old(self)@.entries.update(i as int, entry.model()), ..old(self)@ }),
    {
        let ghost before = self@;
        proof {
            self.lemma_view();
        }
        let ghost vec_before = self.node2entry@;
        let ghost e = entry.model();
        let _old_entry = self.node2entry.remove(i);
        self.node2entry.insert(i, entry);
        proof {
            assert(self.node2entry@ =~= vec_before.update(i as int, self.node2entry@[i as int]));
            assert(self@.entries =~= before.entries.update(i as int, e));
            assert(self@.ids =~= before.ids);
        }
    }

    /// Adds plugins, each in place of the node that has its id, or else in a node of its
    /// own; a node replaced holds the plugin alone, with no dependency update.
    pub(crate) fn overwrite_plugins(&mut self, plugins: Vec<PluginRecord<T>>)
        requires
            old(self).well_formed(),
        ensures
            final(self).well_formed(),
            final(self)@ == overwrite_all_plugins(old(self)@, plugins@),
    {
        let ghost start = self@;
        let ghost all = plugins@;
        let mut rest = plugins;
        proof {
            assert(all.take(0) =~= Seq::<PluginRecord<T>>::empty());
        }
        while rest.len() > 0
            invariant
                self.well_formed(),
                rest@.len() <= all.len(),
                rest@ == all.skip(all.len() - rest@.len()),
                self@ == overwrite_all_plugins(start, all.take(all.len() - rest@.len())),
            decreases rest@.len(),
        {
            let ghost done = all.len() - rest@.len();
            let plugin = rest.remove(0);
            assert(plugin == all[done]);
            assert(rest@ =~= all.skip(done + 1));
            let id = plugin.id.clone();
            let mut one: Vec<PluginRecord<T>> = Vec::new();
            one.push(plugin);
            assert(one@ =~= seq![all[done]]);
            match self.find_node(&id) {
                Some(i) => self.replace_entry(i, PluginEntry::new(one)),
                None => self.push_node(id, PluginEntry::new(one)),
            }
            proof {
                assert(all.take(done + 1).drop_last() =~= all.take(done));
                assert(all.take(done + 1).last() == all[done]);
            }
        }
        proof {
            assert(all.take(all.len() as int) =~= all);
        }
    }

    /// Adds `plugins` as a single node with id `alias`, in place of the node with that id
    /// if any; their ids become aliases of `alias`.
    pub(crate) fn overwrite_plugins_as_alias(&mut self, alias: PluginId, plugins: Vec<PluginRecord<T>>)
        requires
            old(self).well_formed(),
        ensures
            final(self).well_formed(),
            final(self)@ == old(self)@.overwrite_alias(alias@, plugins@),
    {
        let ghost start = self@;
        let found = self.find_node(&alias);
        let mut k: usize = 0;
        proof {
            assert(plugins@.take(0) =~= Seq::<PluginRecord<T>>::empty());
        }
        while k < plugins.len()
            invariant
                self.well_formed(),
                k <= plugins@.len(),
                self@.ids == start.ids,
                self@.entries == start.entries,
                self@.aliases == alias_all(start.aliases, plugins@.take(k as int), alias@),
            decreases plugins@.len() - k,
        {
            let ghost before = self.aliases@;
            let pair = (plugins[k].id.clone(), alias.clone());
            self.aliases.push(pair);
            proof {
                assert(self.aliases@.drop_last() =~= before);
                assert(plugins@.take(k + 1).drop_last() =~= plugins@.take(k as int));
                assert(plugins@.take(k + 1).last() == plugins@[k as int]);
            }
            k = k + 1;
        }
        proof {
            assert(plugins@.take(plugins@.len() as int) =~= plugins@);
        }
        let ghost pv = plugins@;
        proof {
            assert(self@.node_of(alias@) == start.node_of(alias@));
        }
        match found {
            Some(i) => {
                self.replace_entry(i, PluginEntry::new(plugins));
                assert(self@ =~= start.overwrite_alias(alias@, pv));
            },
            None => {
                self.push_node(alias, PluginEntry::new(plugins));
                assert(self@ =~= start.overwrite_alias(alias@, pv));
            },
        }
    }

    /// Adds `plugins` as a single node with id `alias`, in which they are built in the
    /// given order; their ids become aliases of `alias`. Nothing changes when a node
    /// with id `alias` exists already.
    pub fn add_plugins_as_alias(&mut self, alias: PluginId, plugins: Vec<PluginRecord<T>>)
        requires
            old(self).well_formed(),
        ensures
            final(self).well_formed(),
            final(self)@ == old(self)@.add_alias(alias@, plugins@),
    {
        if self.find_node(&alias).is_some() {
            return;
        }
        let ghost start = self@;
        let mut k: usize = 0;
        proof {
            assert(plugins@.take(0) =~= Seq::<PluginRecord<T>>::empty());
        }
        while k < plugins.len()
            invariant
                self.well_formed(),
                k <= plugins@.len(),
                self@.ids == start.ids,
                self@.entries == start.entries,
                self@.aliases == alias_all(start.aliases, plugins@.take(k as int), alias@),
            decreases plugins@.len() - k,
        {
            let ghost before = self.aliases@;
            let pair = (plugins[k].id.clone(), alias.clone());
            self.aliases.push(pair);
            proof {
                assert(self.aliases@.drop_last() =~= before);
                assert(plugins@.take(k + 1).drop_last() =~= plugins@.take(k as int));
                assert(plugins@.take(k + 1).last() == plugins@[k as int]);
            }
            k = k + 1;
        }
        proof {
            assert(plugins@.take(plugins@.len() as int) =~= plugins@);
        }
        let ghost mid = self@;
        let ghost pv = plugins@;
        self.push_node(alias, PluginEntry::new(plugins));
        assert(self@ =~= start.add_alias(alias@, pv));
    }

    /// Updates plugins or inserts them. A plugin replaces the first plugin of the same
    /// type in the node that holds its id (directly or through an alias); the dependency
    /// updates of that node stay. A plugin whose node holds no plugin of its type is
    /// skipped. A plugin whose id no node holds gets a node of its own.
    pub fn upset_plugins(&mut self, plugins: Vec<PluginRecord<T>>)
        requires
            old(self).well_formed(),
        ensures
            final(self).well_formed(),
            final(self)@ == upset_all_plugins(old(self)@, plugins@),
    {
        let ghost start = self@;
        let ghost all = plugins@;
        let mut rest = plugins;
        proof {
            assert(all.take(0) =~= Seq::<PluginRecord<T>>::empty());
        }
        while rest.len() > 0
            invariant
                self.well_formed(),
                rest@.len() <= all.len(),
                rest@ == all.skip(all.len() - rest@.len()),
                self@ == upset_all_plugins(start, all.take(all.len() - rest@.len())),
            decreases rest@.len(),
        {
            let ghost done = all.len() - rest@.len();
            let ghost before = self@;
            let plugin = rest.remove(0);
            assert(plugin == all[done]);
            assert(rest@ =~= all.skip(done + 1));
            proof {
                self.lemma_view();
            }
            match self.resolve_node(&plugin.id) {
                Some(i) => {
                    match self.node2entry[i].find_type(&plugin.type_id) {
                        Some(j) => {
                            proof {
                                lemma_first_of_type(before.entries[i as int].records, plugin.type_id, Some(j as int));
                            }
                            let ghost p = plugin;
                            let mut entry = self.node2entry.remove(i);
                            entry.replace_plugin(j, plugin);
                            self.node2entry.insert(i, entry);
                            proof {
                                assert(self@.entries =~= before.upset_plugin(p).entries);
                                assert(self@ =~= before.upset_plugin(p));
                            }
                        },
                        None => {
                            proof {
                                lemma_first_of_type(before.entries[i as int].records, plugin.type_id, None);
                            }
                        },
                    }
                },
                None => {
                    let id = plugin.id.clone();
                    proof {
                        assert(before.node_of(id@) is None);
                    }
                    let mut one: Vec<PluginRecord<T>> = Vec::new();
                    one.push(plugin);
                    assert(one@ =~= seq![all[done]]);
                    self.push_node(id, PluginEntry::new(one));
                },
            }
            proof {
                assert(all.take(done + 1).drop_last() =~= all.take(done));
                assert(all.take(done + 1).last() == all[done]);
            }
        }
        proof {
            assert(all.take(all.len() as int) =~= all);
        }
    }

    /// Records the updates of `patch` in the nodes whose ids it lists; an id that is no
    /// node's id (an alias among them) is ignored.
    pub fn patch_plugin_dependencies(&mut self, patch: &PluginDependencyPatch)
        requires
            old(self).well_formed(),
            patch.well_formed(),
        ensures
            final(self).well_formed(),
            final(self)@ == old(self)@.apply_patch(patch@),
    {
        let ghost start = self@;
        let ghost pairs = patch.entries();
        proof {
            patch.lemma_view();
            self.lemma_view();
            assert(pairs.take(0) =~= Seq::<(PluginId, Vec<UpdatePluginDependency>)>::empty());
            assert(patch_map(pairs.take(0)) == Map::<Seq<char>, Set<DependencyUpdate>>::empty());
            assert(start.apply_patch(patch_map(pairs.take(0))).entries =~= start.entries);
            assert(start.apply_patch(patch_map(pairs.take(0))) == start);
        }
        let mut k: usize = 0;
        while k < patch.patches.len()
            invariant
                self.well_formed(),
                pairs == patch.entries(),
                pairs == patch.patches@,
                distinct_keys(pairs),
                k <= pairs.len(),
                self@ == start.apply_patch(patch_map(pairs.take(k as int))),
            decreases pairs.len() - k,
        {
            let ghost before = self@;
            let ghost m = patch_map(pairs.take(k as int));
            let ghost key = pairs[k as int].0@;
            let ghost ups = update_set(pairs[k as int].1@);
            proof {
                self.lemma_view();
                lemma_patch_map_domain(pairs.take(k as int));
                assert(!m.contains_key(key)) by {
                    if m.contains_key(key) {
                        let q = choose|q: int| 0 <= q < pairs.take(k as int).len() && #[trigger] pairs.take(k as int)[q].0@ == key;
                        assert(pairs[q].0@ == key);
                    }
                }
                assert(pairs.take(k + 1).drop_last() =~= pairs.take(k as int));
                assert(pairs.take(k + 1).last() == pairs[k as int]);
            }
            match self.find_node(&patch.patches[k].0) {
                Some(i) => {
                    let ghost e0 = before.entries[i as int];
                    let ghost vec_before = self.node2entry@;
                    let mut entry = self.node2entry.remove(i);
                    let mut q: usize = 0;
                    proof {
                        assert(pairs[k as int].1@.take(0) =~= Seq::<UpdatePluginDependency>::empty());
                        assert(update_set(pairs[k as int].1@.take(0)) =~= Set::<DependencyUpdate>::empty());
                        let z = e0.apply(update_set(pairs[k as int].1@.take(0)));
                        assert(z.added_before =~= e0.added_before);
                        assert(z.added_after =~= e0.added_after);
                        assert(z.removed_before =~= e0.removed_before);
                        assert(z.removed_after =~= e0.removed_after);
                    }
                    while q < patch.patches[k].1.len()
                        invariant
                            pairs == patch.patches@,
                            k < pairs.len(),
                            q <= pairs[k as int].1@.len(),
                            entry.model() == e0.apply(update_set(pairs[k as int].1@.take(q as int))),
                        decreases pairs[k as int].1@.len() - q,
                    {
                        let ghost prev = entry.model();
                        let ghost u = pairs[k as int].1@[q as int]@;
                        let ghost tq = pairs[k as int].1@.take(q as int);
                        let ghost tq1 = pairs[k as int].1@.take(q + 1);
                        entry.apply_update(patch.patches[k].1[q].clone());
                        proof {
                            assert(update_set(tq1) =~= update_set(tq).insert(u)) by {
                                assert forall|x: DependencyUpdate| #[trigger] update_set(tq1).contains(x) implies update_set(tq).insert(u).contains(x) by {
                                    let w = choose|w: int| 0 <= w < tq1.len() && #[trigger] tq1[w]@ == x;
                                    if w < q {
                                        assert(tq[w]@ == x);
                                    }
                                }
                                assert forall|x: DependencyUpdate| update_set(tq).insert(u).contains(x) implies #[trigger] update_set(tq1).contains(x) by {
                                    if x == u {
                                        assert(tq1[q as int]@ == x);
                                    } else {
                                        let w = choose|w: int| 0 <= w < tq.len() && #[trigger] tq[w]@ == x;
                                        assert(tq1[w]@ == x);
                                    }
                                }
                            }
                            let a = e0.apply(update_set(tq1));
                            let b = e0.apply(update_set(tq)).apply(set![u]);
                            assert(a.added_before =~= b.added_before);
                            assert(a.added_after =~= b.added_after);
                            assert(a.removed_before =~= b.removed_before);
                            assert(a.removed_after =~= b.removed_after);
                        }
                        q = q + 1;
                    }
                    proof {
                        assert(pairs[k as int].1@.take(pairs[k as int].1@.len() as int) =~= pairs[k as int].1@);
                    }
                    self.node2entry.insert(i, entry);
                    proof {
                        let m1 = patch_map(pairs.take(k + 1));
                        assert(m1 == m.insert(key, ups));
                        assert(self@.entries =~= start.apply_patch(m1).entries) by {
                            assert(self.node2entry@ =~= vec_before.update(i as int, entry));
                            assert forall|x: int| 0 <= x < self@.entries.len() implies #[trigger] self@.entries[x] == start.apply_patch(m1).entries[x] by {
                                assert(start.ids[i as int] == key);
                                if x == i {
                                    assert(self@.entries[x] == entry.model());
                                    assert(e0 == start.entries[x]);
                                } else {
                                    assert(start.ids[x] != key);
                                    assert(self@.entries[x] == before.entries[x]);
                                }
                            }
                        }
                        assert(self@ =~= start.apply_patch(m1));
                    }
                },
                None => {
                    proof {
                        let m1 = patch_map(pairs.take(k + 1));
                        assert(m1 == m.insert(key, ups));
                        assert forall|x: int| 0 <= x < start.ids.len() implies #[trigger] start.ids[x] != key by {
                            if start.ids[x] == key {
                                assert(before.node_of(key) is Some);
                            }
                        }
                        assert(self@ =~= start.apply_patch(m1));
                    }
                },
            }
            k = k + 1;
        }
        proof {
            assert(pairs.take(pairs.len() as int) =~= pairs);
        }
    }

    /// Adds the edges that the dependencies `deps` of node `i` give: to `i` when `after`
    /// holds (the dependencies are built before `i`), else from `i`. Fails on a required
    /// dependency that no node has the id of.
    fn add_dependency_edges(&mut self, i: usize, deps: &Vec<PluginDependency>, after: bool) -> (r: Result<(), PluginId>)
        requires
            old(self).structured(),
            i < old(self)@.ids.len(),
        ensures
            final(self).structured(),
            final(self)@ == old(self)@,
            match r {
                Ok(()) => (forall|a: int, b: int|
                    has_edge(final(self).adjacency(), a, b) <==> (has_edge(old(self).adjacency(), a, b)
                        || old(self)@.list_edge(i as int, dep_set(deps@), after, a, b)))
                    && forall|d: DependencyView| #[trigger] dep_set(deps@).contains(d) ==> !old(self)@.is_missing(i as int, d),
                Err(m) => exists|d: DependencyView|
                    #[trigger] dep_set(deps@).contains(d) && old(self)@.is_missing(i as int, d)
                        && m@ == old(self)@.resolve_id(d.0),
            },
    {
        let ghost g = self@;
        let ghost adj0 = self.adjacency();
        proof {
            self.lemma_view();
            assert(deps@.take(0) =~= Seq::<PluginDependency>::empty());
            assert(dep_set(deps@.take(0)) =~= Set::<DependencyView>::empty());
        }
        let mut k: usize = 0;
        let ghost mut done: Set<DependencyView> = Set::empty();
        let mut missing: Option<PluginId> = None;
        while k < deps.len() && missing.is_none()
            invariant
                self.structured(),
                self@ == g,
                i < g.ids.len(),
                k <= deps@.len(),
                done == dep_set(deps@.take(k as int)),
                forall|a: int, b: int|
                    #![trigger has_edge(self.adjacency(), a, b)]
                    #![trigger g.list_edge(i as int, done, after, a, b)]
                    has_edge(self.adjacency(), a, b) <==> (has_edge(adj0, a, b)
                        || g.list_edge(i as int, done, after, a, b)),
                forall|d: DependencyView| #[trigger] done.contains(d) ==> !g.is_missing(i as int, d),
                match missing {
                    Some(m) => exists|d: DependencyView|
                        #[trigger] dep_set(deps@).contains(d) && g.is_missing(i as int, d) && m@ == g.resolve_id(d.0),
                    None => true,
                },
            decreases deps@.len() - k, (if missing is None { 1int } else { 0int }),
        {
            let ghost tk = deps@.take(k as int);
            let ghost tk1 = deps@.take(k + 1);
            let ghost dv = deps@[k as int]@;
            proof {
                self.lemma_view();
                assert(done == dep_set(tk));
                assert(dep_set(tk1) =~= dep_set(tk).insert(dv)) by {
                    assert forall|x: DependencyView| #[trigger] dep_set(tk1).contains(x) implies dep_set(tk).insert(dv).contains(x) by {
                        let w = choose|w: int| 0 <= w < tk1.len() && #[trigger] tk1[w]@ == x;
                        if w < k {
                            assert(tk[w]@ == x);
                        }
                    }
                    assert forall|x: DependencyView| dep_set(tk).insert(dv).contains(x) implies #[trigger] dep_set(tk1).contains(x) by {
                        if x == dv {
                            assert(tk1[k as int]@ == x);
                        } else {
                            let w = choose|w: int| 0 <= w < tk.len() && #[trigger] tk[w]@ == x;
                            assert(tk1[w]@ == x);
                        }
                    }
                }
                assert(dep_set(tk1).contains(dv));
            }
            let ghost adj_before = self.adjacency();
            let dep = &deps[k];
            let target = self.resolve_id(dep.id());
            if target == self.node2id[i] {
                proof {
                    assert(g.dep_node(i as int, dv) is None);
                    assert(!g.is_missing(i as int, dv));
                    lemma_list_edge_insert(g, i as int, dep_set(tk), dv, after);
                            assert forall|a: int, b: int|
                                has_edge(self.adjacency(), a, b) <==> (has_edge(adj0, a, b)
                                    || g.list_edge(i as int, dep_set(tk1), after, a, b)) by {
                                assert(has_edge(adj_before, a, b) <==> (has_edge(adj0, a, b)
                                    || g.list_edge(i as int, dep_set(tk), after, a, b)));
                                assert(g.list_edge(i as int, dep_set(tk1), after, a, b) == g.list_edge(i as int, dep_set(tk).insert(dv), after, a, b));
                            }
                }
                k = k + 1;
                proof {
                    done = dep_set(tk1);
                }
            } else {
                match self.find_node(&target) {
                    Some(j) => {
                        proof {
                            assert(g.dep_node(i as int, dv) == Some(j as int));
                        }
                        if after {
                            graph_add_edge(&mut self.graph, j, i);
                            proof {
                                lemma_add_edge(adj_before, j as int, i as int);
                            }
                        } else {
                            graph_add_edge(&mut self.graph, i, j);
                            proof {
                                lemma_add_edge(adj_before, i as int, j as int);
                            }
                        }
                        proof {
                            assert(self@ =~= g);
                            assert(adjacency_well_formed(self.adjacency())) by {
                                let adj = self.adjacency();
                                assert forall|a: int, w: int| 0 <= a < adj.len() && 0 <= w < adj[a].len() implies 0 <= #[trigger] adj[a][w] < adj.len() by {
                                    assert(has_edge(adj, a, adj[a][w]));
                                    if has_edge(adj_before, a, adj[a][w]) {
                                        let w2 = choose|w2: int| 0 <= w2 < adj_before[a].len() && adj_before[a][w2] == adj[a][w];
                                    }
                                }
                            }
                            assert(!g.is_missing(i as int, dv));
                            lemma_list_edge_insert(g, i as int, dep_set(tk), dv, after);
                            assert forall|a: int, b: int|
                                has_edge(self.adjacency(), a, b) <==> (has_edge(adj0, a, b)
                                    || g.list_edge(i as int, dep_set(tk1), after, a, b)) by {
                                assert(has_edge(adj_before, a, b) <==> (has_edge(adj0, a, b)
                                    || g.list_edge(i as int, dep_set(tk), after, a, b)));
                            }
                        }
                        k = k + 1;
                proof {
                    done = dep_set(tk1);
                }
                    },
                    None => {
                        if dep.is_required() {
                            proof {
                                assert(g.is_missing(i as int, dv));
                                assert(dep_set(deps@).contains(dv)) by {
                                    assert(deps@[k as int]@ == dv);
                                }
                            }
                            missing = Some(target);
                        } else {
                        proof {
                            assert(!g.is_missing(i as int, dv));
                            assert(g.dep_node(i as int, dv) is None);
                            lemma_list_edge_insert(g, i as int, dep_set(tk), dv, after);
                            assert forall|a: int, b: int|
                                has_edge(self.adjacency(), a, b) <==> (has_edge(adj0, a, b)
                                    || g.list_edge(i as int, dep_set(tk1), after, a, b)) by {
                                assert(has_edge(adj_before, a, b) <==> (has_edge(adj0, a, b)
                                    || g.list_edge(i as int, dep_set(tk), after, a, b)));
                                assert(g.list_edge(i as int, dep_set(tk1), after, a, b) == g.list_edge(i as int, dep_set(tk).insert(dv), after, a, b));
                            }
                        }
                        k = k + 1;
                proof {
                    done = dep_set(tk1);
                }
                        }
                    },
                }
            }

        }
        match missing {
            Some(m) => Err(m),
            None => {
                proof {
                    assert(deps@.take(deps@.len() as int) =~= deps@);
                }
                Ok(())
            },
        }
    }

    /// The graph with the edges that the dependencies of its nodes give, or the error
    /// for a missing required dependency.
    fn add_plugin_edges(self) -> (r: Result<PluginGraph<T>, PluginGraphBuildError>)
        requires
            self.well_formed(),
        ensures
            match r {
                Ok(g) => g.structured() && g@ == self@ && !self@.has_missing() && forall|a: int, b: int|
                    has_edge(g.adjacency(), a, b) <==> self@.dep_edge(a, b),
                Err(PluginGraphBuildError::MissingRequiredPlugin(m)) => self@.has_missing() && self@.is_missing_id(m@),
                Err(_) => false,
            },
    {
        let mut value = self;
        let ghost g = value@;
        proof {
            value.lemma_view();
            assert forall|a: int, b: int| !has_edge(value.adjacency(), a, b) by {
                if 0 <= a < value.adjacency().len() {
                    assert(value.adjacency()[a] == Seq::<int>::empty());
                }
            }
        }
        let n = value.node2id.len();
        let mut i: usize = 0;
        let mut failure: Option<PluginId> = None;
        while i < n && failure.is_none()
            invariant
                value.structured(),
                value@ == g,
                n == g.ids.len(),
                i <= n,
                failure is None ==> forall|a: int, b: int|
                    #![trigger has_edge(value.adjacency(), a, b)]
                    has_edge(value.adjacency(), a, b) <==> exists|i2: int| 0 <= i2 < i && #[trigger] g.entry_edge(i2, a, b),
                forall|i2: int, d: DependencyView|
                    0 <= i2 < i && (g.entries[i2].build_after_set().contains(d)
                        || g.entries[i2].build_before_set().contains(d)) ==> !#[trigger] g.is_missing(i2, d),
                match failure {
                    Some(m) => g.has_missing() && g.is_missing_id(m@),
                    None => true,
                },
            decreases n - i, (if failure is None { 1int } else { 0int }),
        {
            proof {
                value.lemma_view();
            }
            let ghost adj0 = value.adjacency();
            let after_deps = value.node2entry[i].build_after();
            match value.add_dependency_edges(i, &after_deps, true) {
                Ok(()) => {
                    let ghost adj1 = value.adjacency();
                    proof {
                        value.lemma_view();
                    }
                    let before_deps = value.node2entry[i].build_before();
                    match value.add_dependency_edges(i, &before_deps, false) {
                        Ok(()) => {
                            proof {
                                assert forall|a: int, b: int| #![trigger has_edge(value.adjacency(), a, b)]
                                    has_edge(value.adjacency(), a, b) <==> exists|i2: int| 0 <= i2 < i + 1 && #[trigger] g.entry_edge(i2, a, b) by {
                                    assert(has_edge(adj1, a, b) <==> (has_edge(adj0, a, b) || g.list_edge(i as int, dep_set(after_deps@), true, a, b)));
                                    assert(has_edge(adj0, a, b) <==> exists|i2: int| 0 <= i2 < i && #[trigger] g.entry_edge(i2, a, b));
                                    if g.entry_edge(i as int, a, b) {
                                        assert(0 <= i < i + 1);
                                    }
                                    if exists|i2: int| 0 <= i2 < i + 1 && #[trigger] g.entry_edge(i2, a, b) {
                                        let i2 = choose|i2: int| 0 <= i2 < i + 1 && #[trigger] g.entry_edge(i2, a, b);
                                        if i2 < i {
                                            assert(exists|i3: int| 0 <= i3 < i && #[trigger] g.entry_edge(i3, a, b));
                                        }
                                    }
                                }
                                assert forall|i2: int, d: DependencyView|
                                    0 <= i2 < i + 1 && (g.entries[i2].build_after_set().contains(d)
                                        || g.entries[i2].build_before_set().contains(d)) implies !#[trigger] g.is_missing(i2, d) by {
                                    if i2 == i {
                                        if g.entries[i2].build_after_set().contains(d) {
                                            assert(dep_set(after_deps@).contains(d));
                                        } else {
                                            assert(dep_set(before_deps@).contains(d));
                                        }
                                    }
                                }
                            }
                            i = i + 1;
                        },
                        Err(m) => {
                            proof {
                                let d = choose|d: DependencyView|
                                    #[trigger] dep_set(before_deps@).contains(d) && g.is_missing(i as int, d)
                                        && m@ == g.resolve_id(d.0);
                                assert(g.entries[i as int].build_before_set().contains(d));
                            }
                            failure = Some(m);
                        },
                    }
                },
                Err(m) => {
                    proof {
                        let d = choose|d: DependencyView|
                            #[trigger] dep_set(after_deps@).contains(d) && g.is_missing(i as int, d)
                                && m@ == g.resolve_id(d.0);
                        assert(g.entries[i as int].build_after_set().contains(d));
                    }
                    failure = Some(m);
                },
            }
        }
        match failure {
            Some(m) => Err(PluginGraphBuildError::MissingRequiredPlugin(m)),
            None => {
                proof {
                    assert forall|a: int, b: int| has_edge(value.adjacency(), a, b) <==> g.dep_edge(a, b) by {
                        if g.dep_edge(a, b) {
                            let i2 = choose|i2: int| 0 <= i2 < g.ids.len() && #[trigger] g.entry_edge(i2, a, b);
                            assert(0 <= i2 < i && g.entry_edge(i2, a, b));
                        }
                    }
                }
                Ok(value)
            },
        }
    }

    /// The entries in the order that a topological sort gave, or the circular dependency
    /// through the node that the sort reported on a cycle.
    pub fn sorted_entries(self, toposorted: Result<Vec<usize>, usize>) -> (r: Result<Vec<PluginEntry<T>>, PluginGraphBuildError>)
        requires
            self.structured(),
            match toposorted {
                Ok(v) => v@.len() == self@.ids.len() && v@.no_duplicates() && forall|k: int|
                    0 <= k < v@.len() ==> #[trigger] v@[k] < self@.ids.len(),
                Err(c) => c < self@.ids.len(),
            },
        ensures
            toposorted matches Ok(v) ==> r matches Ok(es) && es@.len() == v@.len() && forall|k: int|
                0 <= k < v@.len() ==> #[trigger] es@[k].model() == self@.entries[v@[k] as int],
            toposorted matches Err(c) ==> r matches Err(PluginGraphBuildError::CircularDependency(cyc)) && exists|ns: Seq<int>|
                #![trigger is_reverse_walk(self.adjacency(), ns)]
                self@.node_seq_matches(ns, id_views(cyc@)) && ns.len() >= 1 && ns[0] == c
                    && (ns.len() >= 2 ==> ns[ns.len() - 1] == c) && is_reverse_walk(self.adjacency(), ns)
                    && (on_cycle(self.adjacency(), c as int) ==> ns.len() >= 2)
                    && forall|i: int, j: int| 1 <= i < j < ns.len() ==> ns[i] != ns[j],
    {
        proof {
            self.lemma_view();
        }
        match toposorted {
            Ok(v) => {
                let ghost model = self@;
                let ghost n = self@.ids.len();
                let mut rest = self.node2entry;
                let ghost all = rest@;
                let mut slots: Vec<Option<PluginEntry<T>>> = Vec::new();
                while rest.len() > 0
                    invariant
                        rest@.len() <= all.len(),
                        rest@ == all.skip(all.len() - rest@.len()),
                        slots@.len() == all.len() - rest@.len(),
                        forall|x: int| 0 <= x < slots@.len() ==> #[trigger] slots@[x] == Some(all[x]),
                    decreases rest@.len(),
                {
                    let ghost done = all.len() - rest@.len();
                    let e = rest.remove(0);
                    assert(rest@ =~= all.skip(done + 1));
                    slots.push(Some(e));
                }
                let mut out: Vec<PluginEntry<T>> = Vec::new();
                let mut k: usize = 0;
                while k < v.len()
                    invariant
                        all.len() == n,
                        model.entries.len() == n,
                        n == v@.len(),
                        v@.no_duplicates(),
                        forall|q: int| 0 <= q < v@.len() ==> #[trigger] v@[q] < n,
                        forall|x: int| 0 <= x < n ==> #[trigger] all[x].model() == model.entries[x],
                        slots@.len() == n,
                        k <= v@.len(),
                        out@.len() == k,
                        forall|q: int| 0 <= q < k ==> #[trigger] out@[q].model() == model.entries[v@[q] as int],
                        forall|x: int|
                            0 <= x < n ==> (#[trigger] slots@[x] == Some(all[x]) || v@.take(k as int).contains(x as usize)),
                        forall|x: int| 0 <= x < n && v@.take(k as int).contains(x as usize) ==> #[trigger] slots@[x] is None,
                    decreases v@.len() - k,
                {
                    let idx = v[k];
                    proof {
                        assert(!v@.take(k as int).contains(idx)) by {
                            if v@.take(k as int).contains(idx) {
                                let q = choose|q: int| 0 <= q < k && #[trigger] v@.take(k as int)[q] == idx;
                                assert(v@[q] == v@[k as int]);
                            }
                        }
                        assert(slots@[idx as int] == Some(all[idx as int]));
                    }
                    let ghost slots_before = slots@;
                    let slot = slots.remove(idx);
                    slots.insert(idx, None);
                    proof {
                        assert(slots@ =~= slots_before.update(idx as int, None));
                        assert(v@.take(k + 1) =~= v@.take(k as int).push(idx));
                    }
                    match slot {
                        Some(e) => {
                            out.push(e);
                        },
                        None => {},
                    }
                    proof {
                        assert forall|x: int|
                            0 <= x < n implies (#[trigger] slots@[x] == Some(all[x]) || v@.take(k + 1).contains(x as usize)) by {
                            if x == idx {
                                assert(v@.take(k + 1)[k as int] == idx);
                            } else if v@.take(k as int).contains(x as usize) {
                                let q = choose|q: int| 0 <= q < k && #[trigger] v@.take(k as int)[q] == x as usize;
                                assert(v@.take(k + 1)[q] == x as usize);
                            }
                        }
                        assert forall|x: int| 0 <= x < n && v@.take(k + 1).contains(x as usize) implies #[trigger] slots@[x] is None by {
                            if x != idx {
                                let q = choose|q: int| 0 <= q < k + 1 && #[trigger] v@.take(k + 1)[q] == x as usize;
                                assert(q < k);
                                assert(v@.take(k as int)[q] == x as usize);
                            }
                        }
                    }
                    k = k + 1;
                }
                Ok(out)
            },
            Err(c) => {
                let cycle = find_cycle(c, &self.graph);
                let mut ids: Vec<PluginId> = Vec::new();
                let mut k: usize = 0;
                while k < cycle.len()
                    invariant
                        self.structured(),
                        forall|q: int| 0 <= q < cycle@.len() ==> #[trigger] cycle@[q] < self@.ids.len(),
                        k <= cycle@.len(),
                        ids@.len() == k,
                        forall|q: int| 0 <= q < k ==> #[trigger] ids@[q]@ == self@.ids[cycle@[q] as int],
                    decreases cycle@.len() - k,
                {
                    proof {
                        self.lemma_view();
                    }
                    ids.push(self.node2id[cycle[k]].clone());
                    k = k + 1;
                }
                proof {
                    let ns = ints(cycle@);
                    let cyc = id_views(ids@);
                    assert(self@.node_seq_matches(ns, cyc));
                    assert(ns.len() >= 1 && ns[0] == c);
                    assert(ns.len() >= 2 ==> ns[ns.len() - 1] == c);
                    assert(is_reverse_walk(self.adjacency(), ns));
                    assert(on_cycle(self.adjacency(), c as int) ==> ns.len() >= 2);
                }
                Err(PluginGraphBuildError::CircularDependency(ids))
            },
        }
    }

    /// The entries in build order: each entry comes after the entries it depends on.
    ///
    /// Fails when a required dependency is missing, and otherwise when the dependencies
    /// form a cycle. The order is the one that petgraph's topological sort gives on the
    /// dependency edges.
    pub fn try_into_sorted_plugins(self) -> (r: Result<Vec<PluginEntry<T>>, PluginGraphBuildError>)
        requires
            self.well_formed(),
        ensures
            self@.is_sort_outcome(entry_models(r)),
    {
        let ghost g = self@;
        let value = match self.add_plugin_edges() {
            Ok(value) => value,
            Err(e) => {
                return Err(e);
            },
        };
        let ghost adj = value.adjacency();
        proof {
            value.lemma_view();
            assert(g.is_dependency_adjacency(adj));
        }
        let order = graph_toposort(&value.graph);
        let ghost ord_result = order;
        proof {
            match ord_result {
                Ok(v) => {
                    assert(v@.no_duplicates()) by {
                        assert forall|i: int, j: int| 0 <= i < v@.len() && 0 <= j < v@.len() && i != j implies v@[i] != v@[j] by {
                            assert(ints(v@)[i] != ints(v@)[j]);
                        }
                    }
                    assert forall|k: int| 0 <= k < v@.len() implies #[trigger] v@[k] < value@.ids.len() by {
                        assert(0 <= ints(v@)[k] < adj.len());
                    }
                },
                Err(c) => {},
            }
        }
        let r = value.sorted_entries(order);
        proof {
            match ord_result {
                Ok(v) => {
                    let ord = ints(v@);
                    assert(is_topological_order(adj, ord));
                    assert(g.is_build_order(ord)) by {
                        assert forall|p: int, q: int|
                            0 <= p < ord.len() && 0 <= q < ord.len() && #[trigger] g.dep_edge(ord[p], ord[q]) implies p < q by {
                            assert(has_edge(adj, ord[p], ord[q]));
                        }
                    }
                    let es = r->Ok_0;
                    assert(es@.map_values(|e: PluginEntry<T>| e.model()) =~= g.entries_in_order(ord));
                },
                Err(c) => {
                    let cyc = r->Err_0->CircularDependency_0;
                    let ns = choose|ns: Seq<int>|
                        #![trigger is_reverse_walk(value.adjacency(), ns)]
                        value@.node_seq_matches(ns, id_views(cyc@)) && ns.len() >= 1 && ns[0] == c
                            && (ns.len() >= 2 ==> ns[ns.len() - 1] == c) && is_reverse_walk(value.adjacency(), ns)
                            && (on_cycle(value.adjacency(), c as int) ==> ns.len() >= 2)
                            && forall|i: int, j: int| 1 <= i < j < ns.len() ==> ns[i] != ns[j];
                    assert(g.is_reverse_dep_walk(ns)) by {
                        assert forall|k: int| 0 <= k < ns.len() - 1 implies g.dep_edge(ns[k + 1], #[trigger] ns[k]) by {
                            assert(has_edge(adj, ns[k + 1], ns[k]));
                        }
                    }
                    assert(g.is_dependency_cycle(id_views(cyc@)));
                },
            }
        }
        r
    }

    /// The plugins in build order: the plugins of each entry, in their order within the
    /// entry, entry after entry as [`Self::try_into_sorted_plugins`] orders the entries.
    pub fn try_into_plugin_vec(self) -> (r: Result<Vec<PluginRecord<T>>, PluginGraphBuildError>)
        requires
            self.well_formed(),
        ensures
            self@.is_plugin_vec_outcome(record_seq(r)),
            exists|s: Result<Seq<EntryModel<T>>, PluginGraphBuildError>|
                #[trigger] self@.is_sort_outcome(s) && record_seq(r) == flatten_outcome(s),
    {
        let ghost g = self@;
        let sorted = self.try_into_sorted_plugins();
        let ghost s = entry_models(sorted);
        let r = match sorted {
            Ok(es) => {
                let ghost models = es@.map_values(|e: PluginEntry<T>| e.model());
                let mut rs: Vec<PluginRecord<T>> = Vec::new();
                let mut rest = es;
                let ghost all = rest@;
                proof {
                    assert(models.take(0) =~= Seq::<EntryModel<T>>::empty());
                }
                while rest.len() > 0
                    invariant
                        rest@.len() <= all.len(),
                        rest@ == all.skip(all.len() - rest@.len()),
                        models == all.map_values(|e: PluginEntry<T>| e.model()),
                        rs@ == flatten_records(models.take(all.len() - rest@.len())),
                    decreases rest@.len(),
                {
                    let ghost done = all.len() - rest@.len();
                    let e = rest.remove(0);
                    assert(rest@ =~= all.skip(done + 1));
                    let ghost before = rs@;
                    let mut plugins = e.into_plugins();
                    rs.append(&mut plugins);
                    proof {
                        assert(models.take(done + 1).drop_last() =~= models.take(done));
                        assert(models.take(done + 1).last() == models[done]);
                        assert(models[done] == all[done].model());
                    }
                }
                proof {
                    assert(models.take(all.len() as int) =~= models);
                }
                Ok(rs)
            },
            Err(e) => Err(e),
        };
        proof {
            assert(g.is_sort_outcome(s));
            assert(record_seq(r) == flatten_outcome(s));
        }
        r
    }

    /// The first plugin of type `type_id` in the node that holds the plugin `id`
    /// (directly or through an alias), to change; `expected_name` names the expected type
    /// in the error.
    pub fn get_plugin_mut(&mut self, id: &PluginId, type_id: &TypeId, expected_name: &'static str) -> (r: Result<&mut T, GetPluginError>)
        requires
            old(self).well_formed(),
        ensures
            final(self).well_formed(),
            match old(self)@.resolve_node(id@) {
                None => r matches Err(GetPluginError::PluginNotAdded(e)) && e@ == id@ && final(self)@ == old(self)@,
                Some(i) => match first_of_type(old(self)@.entries[i].records, *type_id) {
                    Some(j) => r matches Ok(p) && *p == old(self)@.entries[i].records[j].plugin
                        && final(self)@ == old(self)@.write_plugin(id@, *type_id, *final(p)),
                    None => r matches Err(GetPluginError::InvalidType(e, n)) && e@ == id@ && n == expected_name
                        && final(self)@ == old(self)@,
                },
            },
    {
        proof {
            self.lemma_view();
        }
        let i = match self.resolve_node(id) {
            Some(i) => i,
            None => {
                return Err(GetPluginError::PluginNotAdded(id.clone()));
            },
        };
        match self.node2entry[i].find_type(type_id) {
            Some(j) => {
                proof {
                    lemma_first_of_type(self@.entries[i as int].records, *type_id, Some(j as int));
                }
                let entry = &mut self.node2entry[i];
                Ok(entry.plugin_at_mut(j))
            },
            None => {
                proof {
                    lemma_first_of_type(self@.entries[i as int].records, *type_id, None);
                }
                Err(GetPluginError::InvalidType(id.clone(), expected_name))
            },
        }
    }

    /// The entries of the nodes, by node index.
    pub fn iter_plugins(&self) -> (r: &[PluginEntry<T>])
        requires
            self.structured(),
        ensures
            r@.map_values(|e: PluginEntry<T>| e.model()) == self@.entries,
    {
        self.node2entry.as_slice()
    }

    /// Whether a plugin with id `id` is added: a node has that id, or the plugin belongs
    /// to an alias group.
    pub fn contains_plugin_id(&self, id: &PluginId) -> (r: bool)
        requires
            self.structured(),
        ensures
            r == (self@.resolve_node(id@) is Some),
    {
        self.resolve_node(id).is_some()
    }

    /// The first plugin of type `type_id` in the node that holds the plugin `id`
    /// (directly or through an alias); `expected_name` names the expected type in the error.
    pub fn get_plugin(&self, id: &PluginId, type_id: &TypeId, expected_name: &'static str) -> (r: Result<&T, GetPluginError>)
        requires
            self.structured(),
        ensures
            match self@.resolve_node(id@) {
                None => r matches Err(GetPluginError::PluginNotAdded(e)) && e@ == id@,
                Some(i) => match first_of_type(self@.entries[i].records, *type_id) {
                    Some(j) => r matches Ok(p) && *p == self@.entries[i].records[j].plugin,
                    None => r matches Err(GetPluginError::InvalidType(e, n)) && e@ == id@ && n == expected_name,
                },
            },
    {
        proof {
            self.lemma_view();
        }
        let i = match self.resolve_node(id) {
            Some(i) => i,
            None => {
                return Err(GetPluginError::PluginNotAdded(id.clone()));
            },
        };
        match self.node2entry[i].find_type(type_id) {
            Some(j) => {
                proof {
                    lemma_first_of_type(self@.entries[i as int].records, *type_id, Some(j as int));
                }
                Ok(self.node2entry[i].plugin_at(j))
            },
            None => {
                proof {
                    lemma_first_of_type(self@.entries[i as int].records, *type_id, None);
                }
                Err(GetPluginError::InvalidType(id.clone(), expected_name))
            },
        }
    }
}

} // verus!
