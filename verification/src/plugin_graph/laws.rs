//! What holds of plugin graphs across operations: which dependencies give edges (none
//! from a node to itself, none for a dependency that stands for its own node) and which
//! are missing; build orders respect dependencies, contain every plugin once and exist
//! only without cycles; listing the plugins and sorting the entries succeed and fail
//! together; patches add and remove dependencies, commute, and apply once; an update
//! added to a patch and removed again changes nothing; updates keep patches and replace
//! plugins in place, also through an alias; added plugins are found again, and a plugin
//! written in place is what a lookup then finds.

use crate::plugin_graph::entry::{declared_after, declared_before, dep_set, EntryModel, PluginRecord};
use crate::plugin_graph::patch::{lemma_patch_remove_undoes_add, patch_with, patch_without, DependencyUpdate};
use crate::plugin_graph::{
    alias_all, first_of_type, flatten_outcome, flatten_records, id_views, GraphModel, PluginGraphBuildError,
};
use crate::plugin_id::DependencyView;
use std::any::TypeId;
use vstd::prelude::*;

verus! {

/// With distinct ids, the node of the id of node `i` is `i`.
pub proof fn lemma_node_of_index<T>(g: GraphModel<T>, i: int)
    requires
        g.ids_distinct(),
        0 <= i < g.ids.len(),
    ensures
        g.node_of(g.ids[i]) == Some(i),
{
    let c = choose|c: int| 0 <= c < g.ids.len() && g.ids[c] == g.ids[i];
    if c < i {
        assert(g.ids[c] != g.ids[i]);
    } else if c > i {
        assert(g.ids[i] != g.ids[c]);
    }
}

/// A build order lists every node.
pub proof fn lemma_build_order_lists_every_node<T>(g: GraphModel<T>, ord: Seq<int>, i: int)
    requires
        g.is_build_order(ord),
        0 <= i < g.ids.len(),
    ensures
        exists|k: int| 0 <= k < ord.len() && ord[k] == i,
{
    let n = g.ids.len() as int;
    ord.unique_seq_to_set();
    vstd::set_lib::lemma_int_range(0, n);
    let range = vstd::set_lib::set_int_range(0, n);
    assert(ord.to_set().subset_of(range)) by {
        assert forall|x: int| ord.to_set().contains(x) implies range.contains(x) by {
            let k = choose|k: int| 0 <= k < ord.len() && ord[k] == x;
            assert(0 <= ord[k] < n);
        }
    }
    vstd::set_lib::lemma_len_subset(ord.to_set(), range);
    vstd::set_lib::lemma_subset_equality(ord.to_set(), range);
    assert(range.contains(i));
    assert(ord.to_set().contains(i));
}

/// A plugin is built after the plugins it must be built after: when node `b` lists `d`
/// among the plugins to build before it, and `d` leads to node `a`, then `a` comes
/// before `b` in every build order.
pub proof fn lemma_build_order_respects_build_after<T>(g: GraphModel<T>, ord: Seq<int>, b: int, d: DependencyView)
    requires
        g.is_build_order(ord),
        0 <= b < g.ids.len(),
        g.entries[b].build_after_set().contains(d),
        g.dep_node(b, d) is Some,
    ensures
        exists|p: int, q: int| 0 <= p < q < ord.len() && ord[p] == g.dep_node(b, d)->Some_0 && ord[q] == b,
{
    let a = g.dep_node(b, d)->Some_0;
    assert(g.list_edge(b, g.entries[b].build_after_set(), true, a, b));
    assert(g.entry_edge(b, a, b));
    assert(g.dep_edge(a, b));
    assert(0 <= a < g.ids.len()) by {
        let w = choose|w: int| 0 <= w < g.ids.len() && g.ids[w] == g.resolve_id(d.0);
    }
    lemma_build_order_lists_every_node(g, ord, a);
    lemma_build_order_lists_every_node(g, ord, b);
    let p = choose|p: int| 0 <= p < ord.len() && ord[p] == a;
    let q = choose|q: int| 0 <= q < ord.len() && ord[q] == b;
    assert(g.dep_edge(ord[p], ord[q]));
}

/// A plugin is built before the plugins it must be built before: when node `a` lists `d`
/// among the plugins to build after it, and `d` leads to node `b`, then `a` comes before
/// `b` in every build order.
pub proof fn lemma_build_order_respects_build_before<T>(g: GraphModel<T>, ord: Seq<int>, a: int, d: DependencyView)
    requires
        g.is_build_order(ord),
        0 <= a < g.ids.len(),
        g.entries[a].build_before_set().contains(d),
        g.dep_node(a, d) is Some,
    ensures
        exists|p: int, q: int| 0 <= p < q < ord.len() && ord[p] == a && ord[q] == g.dep_node(a, d)->Some_0,
{
    let b = g.dep_node(a, d)->Some_0;
    assert(g.list_edge(a, g.entries[a].build_before_set(), false, a, b));
    assert(g.entry_edge(a, a, b));
    assert(g.dep_edge(a, b));
    assert(0 <= b < g.ids.len()) by {
        let w = choose|w: int| 0 <= w < g.ids.len() && g.ids[w] == g.resolve_id(d.0);
    }
    lemma_build_order_lists_every_node(g, ord, a);
    lemma_build_order_lists_every_node(g, ord, b);
    let p = choose|p: int| 0 <= p < ord.len() && ord[p] == a;
    let q = choose|q: int| 0 <= q < ord.len() && ord[q] == b;
    assert(g.dep_edge(ord[p], ord[q]));
}

/// Dependencies that form a cycle have no build order.
pub proof fn lemma_build_order_excludes_cycles<T>(g: GraphModel<T>, ord: Seq<int>, cyc: Seq<Seq<char>>)
    requires
        g.is_build_order(ord),
    ensures
        !g.is_dependency_cycle(cyc),
{
    if g.is_dependency_cycle(cyc) {
        let ns = choose|ns: Seq<int>|
            #![trigger g.is_reverse_dep_walk(ns)]
            g.node_seq_matches(ns, cyc) && ns.len() >= 2 && ns[0] == ns[ns.len() - 1] && g.is_reverse_dep_walk(ns);
        // Positions in `ord` strictly decrease along `ns`.
        let pos = |x: int| choose|k: int| 0 <= k < ord.len() && ord[k] == x;
        assert forall|k: int| 0 <= k < ns.len() implies 0 <= #[trigger] pos(ns[k]) < ord.len() && ord[pos(ns[k])] == ns[k] by {
            lemma_build_order_lists_every_node(g, ord, ns[k]);
        }
        assert forall|k: int| 0 <= k < ns.len() - 1 implies pos(ns[k + 1]) < #[trigger] pos(ns[k]) by {
            assert(g.dep_edge(ns[k + 1], ns[k]));
            assert(g.dep_edge(ord[pos(ns[k + 1])], ord[pos(ns[k])]));
        }
        lemma_decreasing(ns, pos, ns.len() - 1);
        assert(pos(ns[ns.len() - 1]) < pos(ns[0]));
    }
}

proof fn lemma_decreasing(ns: Seq<int>, pos: spec_fn(int) -> int, k: int)
    requires
        1 <= k < ns.len(),
        forall|j: int| 0 <= j < ns.len() - 1 ==> pos(ns[j + 1]) < #[trigger] pos(ns[j]),
    ensures
        pos(ns[k]) < pos(ns[0]),
    decreases k,
{
    assert(pos(ns[k]) < pos(ns[k - 1]));
    if k > 1 {
        lemma_decreasing(ns, pos, k - 1);
    }
}

/// An update that adds a dependency puts it in the entry's dependencies.
pub proof fn lemma_patch_adds_dependency<T>(e: EntryModel<T>, updates: Set<DependencyUpdate>, d: DependencyView)
    ensures
        updates.contains(DependencyUpdate::AddBefore(d)) ==> e.apply(updates).build_before_set().contains(d),
        updates.contains(DependencyUpdate::AddAfter(d)) ==> e.apply(updates).build_after_set().contains(d),
{
}

/// An update that removes a dependency takes it out of the entry's dependencies, unless
/// an update adds it back.
pub proof fn lemma_patch_removes_dependency<T>(e: EntryModel<T>, updates: Set<DependencyUpdate>, d: DependencyView)
    ensures
        updates.contains(DependencyUpdate::RemoveBefore(d)) && !updates.contains(DependencyUpdate::AddBefore(d))
            && !e.added_before.contains(d) ==> !e.apply(updates).build_before_set().contains(d),
        updates.contains(DependencyUpdate::RemoveAfter(d)) && !updates.contains(DependencyUpdate::AddAfter(d))
            && !e.added_after.contains(d) ==> !e.apply(updates).build_after_set().contains(d),
{
}

/// Updating a plugin keeps the dependency updates of every node.
pub proof fn lemma_upset_keeps_patches<T>(g: GraphModel<T>, p: PluginRecord<T>, i: int)
    requires
        0 <= i < g.entries.len(),
        g.ids.len() == g.entries.len(),
    ensures
        g.upset_plugin(p).entries[i].added_before == g.entries[i].added_before,
        g.upset_plugin(p).entries[i].added_after == g.entries[i].added_after,
        g.upset_plugin(p).entries[i].removed_before == g.entries[i].removed_before,
        g.upset_plugin(p).entries[i].removed_after == g.entries[i].removed_after,
{
}

/// A plugin added under a new id is found again by its id and type.
pub proof fn lemma_added_plugin_is_found<T>(g: GraphModel<T>, p: PluginRecord<T>)
    requires
        g.ids_distinct(),
        g.ids.len() == g.entries.len(),
        g.node_of(p.id@) is None,
    ensures
        g.add_plugin(p).resolve_node(p.id@) == Some(g.ids.len() as int),
        first_of_type(g.add_plugin(p).entries[g.ids.len() as int].records, p.type_id) == Some(0int),
        g.add_plugin(p).entries[g.ids.len() as int].records[0] == p,
{
    let g2 = g.add_plugin(p);
    let n = g.ids.len() as int;
    assert(g2.ids_distinct()) by {
        assert forall|a: int, b: int| 0 <= a < b < g2.ids.len() implies g2.ids[a] != g2.ids[b] by {
            if b == n {
                assert(g.ids[a] != p.id@);
            } else {
                assert(g.ids[a] != g.ids[b]);
            }
        }
    }
    lemma_node_of_index(g2, n);
    assert(g2.entries[n].records == seq![p]);
    assert(g2.entries[n].records[0].type_id == p.type_id);
}

/// A plugin overwritten in the graph is found again by its id and type.
pub proof fn lemma_overwritten_plugin_is_found<T>(g: GraphModel<T>, p: PluginRecord<T>)
    requires
        g.ids_distinct(),
        g.ids.len() == g.entries.len(),
    ensures
        ({
            let g2 = g.overwrite_plugin(p);
            exists|i: int|
                g2.resolve_node(p.id@) == Some(i) && first_of_type(#[trigger] g2.entries[i].records, p.type_id)
                    == Some(0int) && g2.entries[i].records[0] == p
        }),
{
    let g2 = g.overwrite_plugin(p);
    match g.node_of(p.id@) {
        Some(i) => {
            let c = choose|c: int| 0 <= c < g.ids.len() && g.ids[c] == p.id@;
            assert(g2.ids == g.ids);
            lemma_node_of_index(g, i);
            assert(g2.entries[i].records == seq![p]);
            assert(g2.entries[i].records[0].type_id == p.type_id);
        },
        None => {
            lemma_added_plugin_is_found(g, p);
            assert(g2 == g.add_plugin(p));
        },
    }
}

/// The plugins added as one node under a new alias are found through the alias, when no
/// node has their own id.
pub proof fn lemma_aliased_plugin_is_found<T>(g: GraphModel<T>, alias: Seq<char>, s: Seq<PluginRecord<T>>, k: int)
    requires
        g.ids_distinct(),
        g.ids.len() == g.entries.len(),
        g.node_of(alias) is None,
        0 <= k < s.len(),
        g.node_of(s[k].id@) is None,
        s[k].id@ != alias,
    ensures
        g.add_alias(alias, s).resolve_node(s[k].id@) == Some(g.ids.len() as int),
{
    let g2 = g.add_alias(alias, s);
    let n = g.ids.len() as int;
    lemma_alias_all_contains(g.aliases, s, alias, k);
    assert(g2.ids_distinct()) by {
        assert forall|a: int, b: int| 0 <= a < b < g2.ids.len() implies g2.ids[a] != g2.ids[b] by {
            if b == n {
                assert(g.ids[a] != alias);
            } else {
                assert(g.ids[a] != g.ids[b]);
            }
        }
    }
    assert(g2.node_of(s[k].id@) is None) by {
        if g2.node_of(s[k].id@) is Some {
            let c = choose|c: int| 0 <= c < g2.ids.len() && g2.ids[c] == s[k].id@;
            if c < n {
                assert(g.ids[c] == s[k].id@);
            }
        }
    }
    lemma_node_of_index(g2, n);
}

proof fn lemma_alias_all_contains<T>(m: Map<Seq<char>, Seq<char>>, s: Seq<PluginRecord<T>>, alias: Seq<char>, k: int)
    requires
        0 <= k < s.len(),
    ensures
        alias_all(m, s, alias).contains_key(s[k].id@),
        alias_all(m, s, alias)[s[k].id@] == alias,
    decreases s.len(),
{
    if k < s.len() - 1 {
        assert(s.drop_last()[k] == s[k]);
        lemma_alias_all_contains(m, s.drop_last(), alias, k);
    }
}

/// Applying two patches in either order gives the same graph.
pub proof fn lemma_patches_commute<T>(
    g: GraphModel<T>,
    p1: Map<Seq<char>, Set<DependencyUpdate>>,
    p2: Map<Seq<char>, Set<DependencyUpdate>>,
)
    ensures
        g.apply_patch(p1).apply_patch(p2) == g.apply_patch(p2).apply_patch(p1),
{
    let a = g.apply_patch(p1).apply_patch(p2);
    let b = g.apply_patch(p2).apply_patch(p1);
    assert forall|i: int| 0 <= i < g.entries.len() implies a.entries[i] == b.entries[i] by {
        let e = g.entries[i];
        let u1 = if p1.contains_key(g.ids[i]) { p1[g.ids[i]] } else { Set::empty() };
        let u2 = if p2.contains_key(g.ids[i]) { p2[g.ids[i]] } else { Set::empty() };
        lemma_apply_empty(e);
        lemma_apply_empty(e.apply(u1));
        lemma_apply_empty(e.apply(u2));
        assert(a.entries[i] == e.apply(u1).apply(u2));
        assert(b.entries[i] == e.apply(u2).apply(u1));
        lemma_apply_twice(e, u1, u2);
        lemma_apply_twice(e, u2, u1);
        assert(u1.union(u2) =~= u2.union(u1));
    }
    assert(a.entries =~= b.entries);
    assert(a == b);
}

/// Applying a patch a second time changes nothing.
pub proof fn lemma_patch_idempotent<T>(g: GraphModel<T>, p: Map<Seq<char>, Set<DependencyUpdate>>)
    ensures
        g.apply_patch(p).apply_patch(p) == g.apply_patch(p),
{
    let a = g.apply_patch(p).apply_patch(p);
    let b = g.apply_patch(p);
    assert forall|i: int| 0 <= i < g.entries.len() implies a.entries[i] == b.entries[i] by {
        let e = g.entries[i];
        if p.contains_key(g.ids[i]) {
            let u = p[g.ids[i]];
            lemma_apply_twice(e, u, u);
            assert(u.union(u) =~= u);
        }
    }
    assert(a.entries =~= b.entries);
    assert(a == b);
}

/// An update that a patch adds and then removes again leaves the patch's effect on every
/// graph as it was, when the patch did not hold that update.
pub proof fn lemma_patch_remove_undoes_add_on_graph<T>(
    g: GraphModel<T>,
    m: Map<Seq<char>, Set<DependencyUpdate>>,
    id: Seq<char>,
    u: DependencyUpdate,
)
    requires
        !(m.contains_key(id) && m[id].contains(u)),
    ensures
        g.apply_patch(patch_without(patch_with(m, id, u), id, u)) == g.apply_patch(m),
{
    lemma_patch_remove_undoes_add(m, id, u);
    if !m.contains_key(id) {
        let m2 = m.insert(id, Set::empty());
        let a = g.apply_patch(m2);
        let b = g.apply_patch(m);
        assert forall|i: int| 0 <= i < g.entries.len() implies a.entries[i] == b.entries[i] by {
            lemma_apply_empty(g.entries[i]);
        }
        assert(a.entries =~= b.entries);
        assert(a == b);
    }
}

/// Recording no update leaves an entry as it is.
proof fn lemma_apply_empty<T>(e: EntryModel<T>)
    ensures
        e.apply(Set::empty()) == e,
{
    let f = e.apply(Set::empty());
    assert(f.added_before =~= e.added_before);
    assert(f.added_after =~= e.added_after);
    assert(f.removed_before =~= e.removed_before);
    assert(f.removed_after =~= e.removed_after);
}

/// Recording two sets of updates in turn is recording their union.
proof fn lemma_apply_twice<T>(e: EntryModel<T>, u1: Set<DependencyUpdate>, u2: Set<DependencyUpdate>)
    ensures
        e.apply(u1).apply(u2) == e.apply(u1.union(u2)),
{
    let a = e.apply(u1).apply(u2);
    let b = e.apply(u1.union(u2));
    assert(a.added_before =~= b.added_before);
    assert(a.added_after =~= b.added_after);
    assert(a.removed_before =~= b.removed_before);
    assert(a.removed_after =~= b.removed_after);
}

/// A plugin written through `get_plugin_mut` is what `get_plugin` then finds for the same
/// id and type; every other lookup finds what it found before, and no node, alias or
/// dependency of the graph changes.
pub proof fn lemma_get_after_write<T>(g: GraphModel<T>, id: Seq<char>, t: TypeId, v: T)
    requires
        g.ids.len() == g.entries.len(),
        g.resolve_node(id) matches Some(i) && first_of_type(g.entries[i].records, t) is Some,
    ensures
        ({
            let g2 = g.write_plugin(id, t, v);
            &&& g2.ids == g.ids
            &&& g2.aliases == g.aliases
            &&& g2.entries.len() == g.entries.len()
            &&& match g2.resolve_node(id) {
                Some(i) => match first_of_type(g2.entries[i].records, t) {
                    Some(j) => g2.entries[i].records[j].plugin == v,
                    None => false,
                },
                None => false,
            }
            &&& forall|id2: Seq<char>| g2.resolve_node(id2) == g.resolve_node(id2)
            &&& forall|k: int, t2: TypeId|
                0 <= k < g.entries.len() ==> #[trigger] first_of_type(g2.entries[k].records, t2)
                    == first_of_type(g.entries[k].records, t2)
            &&& forall|k: int, m: int|
                0 <= k < g.entries.len() && 0 <= m < g.entries[k].records.len() && !(g.resolve_node(id) == Some(k)
                    && first_of_type(g.entries[k].records, t) == Some(m)) ==> #[trigger] g2.entries[k].records[m]
                    == g.entries[k].records[m]
            &&& forall|k: int|
                0 <= k < g.entries.len() ==> (#[trigger] g2.entries[k]).build_before_set() == g.entries[k].build_before_set()
                    && g2.entries[k].build_after_set() == g.entries[k].build_after_set()
        }),
{
    let g2 = g.write_plugin(id, t, v);
    let i = g.resolve_node(id).unwrap();
    let j = first_of_type(g.entries[i].records, t).unwrap();
    lemma_first_of_type_range(g.entries[i].records, t);
    let rs = g.entries[i].records;
    assert(0 <= i < g.ids.len()) by {
        if g.node_of(id) is None {
            assert(0 <= g.node_of(g.aliases[id]).unwrap() < g.ids.len());
        }
    }
    let rs2 = g2.entries[i].records;
    assert(rs2 == rs.update(j, PluginRecord { plugin: v, ..rs[j] }));
    lemma_first_of_type_same_types(rs, rs2, t);
    assert(g2.ids == g.ids);
    assert(g2.aliases == g.aliases);
    assert(forall|id2: Seq<char>| g2.resolve_node(id2) == g.resolve_node(id2));
    assert(g2.resolve_node(id) == Some(i));
    assert(first_of_type(g2.entries[i].records, t) == Some(j));
    assert(g2.entries[i].records[j].plugin == v);
    assert forall|k: int, m: int|
        0 <= k < g.entries.len() && 0 <= m < g.entries[k].records.len() && !(g.resolve_node(id) == Some(k)
            && first_of_type(g.entries[k].records, t) == Some(m)) implies #[trigger] g2.entries[k].records[m]
            == g.entries[k].records[m] by {
    }
    assert forall|k: int, t2: TypeId|
        0 <= k < g.entries.len() implies #[trigger] first_of_type(g2.entries[k].records, t2)
            == first_of_type(g.entries[k].records, t2) by {
        if k == i {
            lemma_first_of_type_same_types(rs, rs2, t2);
        }
    }
    assert forall|k: int| 0 <= k < g.entries.len() implies (#[trigger] g2.entries[k]).build_before_set()
        == g.entries[k].build_before_set() && g2.entries[k].build_after_set() == g.entries[k].build_after_set() by {
        if k == i {
            assert(declared_before(rs2) =~= declared_before(rs)) by {
                assert forall|d: DependencyView| declared_before(rs2).contains(d) == declared_before(rs).contains(d) by {
                    if declared_before(rs2).contains(d) {
                        let q = choose|q: int| 0 <= q < rs2.len() && #[trigger] dep_set(rs2[q].build_before@).contains(d);
                        assert(rs[q].build_before == rs2[q].build_before);
                    }
                    if declared_before(rs).contains(d) {
                        let q = choose|q: int| 0 <= q < rs.len() && #[trigger] dep_set(rs[q].build_before@).contains(d);
                        assert(rs[q].build_before == rs2[q].build_before);
                    }
                }
            }
            assert(declared_after(rs2) =~= declared_after(rs)) by {
                assert forall|d: DependencyView| declared_after(rs2).contains(d) == declared_after(rs).contains(d) by {
                    if declared_after(rs2).contains(d) {
                        let q = choose|q: int| 0 <= q < rs2.len() && #[trigger] dep_set(rs2[q].build_after@).contains(d);
                        assert(rs[q].build_after == rs2[q].build_after);
                    }
                    if declared_after(rs).contains(d) {
                        let q = choose|q: int| 0 <= q < rs.len() && #[trigger] dep_set(rs[q].build_after@).contains(d);
                        assert(rs[q].build_after == rs2[q].build_after);
                    }
                }
            }
        }
    }
}

/// The first record of type `t`, when there is one, lies among the records and has type `t`.
proof fn lemma_first_of_type_range<T>(records: Seq<PluginRecord<T>>, t: TypeId)
    ensures
        first_of_type(records, t) matches Some(j) ==> 0 <= j < records.len() && records[j].type_id == t,
    decreases records.len(),
{
    if records.len() > 0 && records[0].type_id != t {
        lemma_first_of_type_range(records.drop_first(), t);
    }
}

/// Records with the same types, position by position, have their first record of each
/// type at the same position.
proof fn lemma_first_of_type_same_types<T>(a: Seq<PluginRecord<T>>, b: Seq<PluginRecord<T>>, t: TypeId)
    requires
        a.len() == b.len(),
        forall|k: int| 0 <= k < a.len() ==> #[trigger] a[k].type_id == b[k].type_id,
    ensures
        first_of_type(a, t) == first_of_type(b, t),
    decreases a.len(),
{
    if a.len() > 0 {
        assert(a[0].type_id == b[0].type_id);
        assert forall|k: int| 0 <= k < a.drop_first().len() implies #[trigger] a.drop_first()[k].type_id
            == b.drop_first()[k].type_id by {
            assert(a[k + 1].type_id == b[k + 1].type_id);
        }
        lemma_first_of_type_same_types(a.drop_first(), b.drop_first(), t);
    }
}

/// Listing the plugins in build order and sorting the entries succeed on the same graphs
/// and fail in the same way: both name a missing plugin when one is missing; otherwise
/// both succeed, or both report a dependency cycle.
pub proof fn lemma_plugin_vec_agrees_with_sort<T>(
    g: GraphModel<T>,
    sorted: Result<Seq<EntryModel<T>>, PluginGraphBuildError>,
    plugins: Result<Seq<PluginRecord<T>>, PluginGraphBuildError>,
)
    requires
        g.is_sort_outcome(sorted),
        g.is_plugin_vec_outcome(plugins),
    ensures
        (sorted is Ok) == (plugins is Ok),
        (sorted matches Err(PluginGraphBuildError::MissingRequiredPlugin(_))) == (plugins matches Err(
            PluginGraphBuildError::MissingRequiredPlugin(_),
        )),
        (sorted matches Err(PluginGraphBuildError::CircularDependency(_))) == (plugins matches Err(
            PluginGraphBuildError::CircularDependency(_),
        )),
{
    if !g.has_missing() {
        if let Ok(es) = sorted {
            let ord = choose|ord: Seq<int>| #[trigger] g.is_build_order(ord) && es == g.entries_in_order(ord);
            if let Err(PluginGraphBuildError::CircularDependency(cyc)) = plugins {
                lemma_build_order_excludes_cycles(g, ord, id_views(cyc@));
            }
        }
        if let Ok(rs) = plugins {
            let ord = choose|ord: Seq<int>|
                #[trigger] g.is_build_order(ord) && rs == flatten_records(g.entries_in_order(ord));
            if let Err(PluginGraphBuildError::CircularDependency(cyc)) = sorted {
                lemma_build_order_excludes_cycles(g, ord, id_views(cyc@));
            }
        }
    }
}

/// Every result that sorting the entries can give, with each entry replaced by its
/// plugins in order, is a result that listing the plugins can give: the same error, or
/// the sorted entries' plugins, entry after entry.
pub proof fn lemma_flattened_sort_is_plugin_vec<T>(g: GraphModel<T>, s: Result<Seq<EntryModel<T>>, PluginGraphBuildError>)
    requires
        g.is_sort_outcome(s),
    ensures
        g.is_plugin_vec_outcome(flatten_outcome(s)),
{
    if !g.has_missing() {
        let adj = choose|adj: Seq<Seq<int>>|
            #[trigger] g.is_dependency_adjacency(adj) && match s {
                Ok(es) => exists|ord: Seq<int>| #[trigger] g.is_build_order(ord) && es == g.entries_in_order(ord),
                Err(PluginGraphBuildError::CircularDependency(cyc)) => g.is_dependency_cycle(id_views(cyc@)),
                Err(PluginGraphBuildError::MissingRequiredPlugin(_)) => false,
            };
        if let Ok(es) = s {
            let ord = choose|ord: Seq<int>| #[trigger] g.is_build_order(ord) && es == g.entries_in_order(ord);
            assert(flatten_outcome(s) == Ok::<Seq<PluginRecord<T>>, PluginGraphBuildError>(
                flatten_records(g.entries_in_order(ord)),
            ));
        }
        assert(g.is_dependency_adjacency(adj));
    }
}

/// Dependency `d` asks for `a` to be built before `b`: node `b` lists it among the plugins
/// to build before `b` and it stands (directly or through an alias) for the id of `a`, or
/// node `a` lists it among the plugins to build after `a` and it stands for the id of `b`.
pub open spec fn orders<T>(g: GraphModel<T>, d: DependencyView, a: int, b: int) -> bool {
    ||| g.entries[b].build_after_set().contains(d) && g.resolve_id(d.0) == g.ids[a]
    ||| g.entries[a].build_before_set().contains(d) && g.resolve_id(d.0) == g.ids[b]
}

/// A dependency edge goes from `a` to `b` exactly when some node `i` lists a dependency
/// that stands (directly or through an alias) for the id of another node: `a` when `i`
/// lists it among the plugins to build before `i` (and `b` is `i`), or `b` when `i` lists
/// it among the plugins to build after `i` (and `a` is `i`). A dependency that stands for
/// the id of the node that lists it gives no edge.
pub proof fn lemma_dependency_edges<T>(g: GraphModel<T>, a: int, b: int)
    requires
        g.ids_distinct(),
        g.ids.len() == g.entries.len(),
    ensures
        g.dep_edge(a, b) == (0 <= a < g.ids.len() && 0 <= b < g.ids.len() && a != b && exists|d: DependencyView|
            #[trigger] orders(g, d, a, b)),
{
    let rhs = 0 <= a < g.ids.len() && 0 <= b < g.ids.len() && a != b && exists|d: DependencyView|
        #[trigger] orders(g, d, a, b);
    if g.dep_edge(a, b) {
        let i = choose|i: int| 0 <= i < g.ids.len() && #[trigger] g.entry_edge(i, a, b);
        if g.list_edge(i, g.entries[i].build_after_set(), true, a, b) {
            let d = choose|d: DependencyView|
                #[trigger] g.entries[i].build_after_set().contains(d) && g.dep_node(i, d) == Some(a);
            let x = g.resolve_id(d.0);
            assert(x != g.ids[i]);
            assert(g.node_of(x) == Some(a));
            let c = choose|c: int| 0 <= c < g.ids.len() && g.ids[c] == x;
            assert(0 <= a < g.ids.len() && g.ids[a] == x);
            assert(orders(g, d, a, b));
        } else {
            let d = choose|d: DependencyView|
                #[trigger] g.entries[i].build_before_set().contains(d) && g.dep_node(i, d) == Some(b);
            let x = g.resolve_id(d.0);
            assert(x != g.ids[i]);
            assert(g.node_of(x) == Some(b));
            let c = choose|c: int| 0 <= c < g.ids.len() && g.ids[c] == x;
            assert(0 <= b < g.ids.len() && g.ids[b] == x);
            assert(orders(g, d, a, b));
        }
        assert(rhs);
    }
    if rhs {
        let d = choose|d: DependencyView| #[trigger] orders(g, d, a, b);
        if g.entries[b].build_after_set().contains(d) && g.resolve_id(d.0) == g.ids[a] {
            assert(g.ids[a] != g.ids[b]) by {
                if a < b {
                    assert(g.ids[a] != g.ids[b]);
                } else {
                    assert(g.ids[b] != g.ids[a]);
                }
            }
            lemma_node_of_index(g, a);
            assert(g.dep_node(b, d) == Some(a));
            assert(g.list_edge(b, g.entries[b].build_after_set(), true, a, b));
            assert(g.entry_edge(b, a, b));
        } else {
            assert(g.ids[a] != g.ids[b]) by {
                if a < b {
                    assert(g.ids[a] != g.ids[b]);
                } else {
                    assert(g.ids[b] != g.ids[a]);
                }
            }
            lemma_node_of_index(g, b);
            assert(g.dep_node(a, d) == Some(b));
            assert(g.list_edge(a, g.entries[a].build_before_set(), false, a, b));
            assert(g.entry_edge(a, a, b));
        }
    }
}

/// No plugin must be built before itself: there is no dependency edge from a node to
/// itself.
pub proof fn lemma_no_self_edge<T>(g: GraphModel<T>, a: int)
    requires
        g.ids_distinct(),
        g.ids.len() == g.entries.len(),
    ensures
        !g.dep_edge(a, a),
{
    lemma_dependency_edges(g, a, a);
}

/// When every dependency of every node stands (directly or through an alias) for that
/// node's own id, as when the plugins of an alias group depend only on each other,
/// sorting succeeds: nothing is missing and there is no dependency edge, so no cycle.
pub proof fn lemma_dependencies_within_nodes_sort<T>(g: GraphModel<T>, s: Result<Seq<EntryModel<T>>, PluginGraphBuildError>)
    requires
        g.ids_distinct(),
        g.ids.len() == g.entries.len(),
        forall|i: int, d: DependencyView|
            0 <= i < g.ids.len() && #[trigger] g.entries[i].build_after_set().contains(d) ==> g.resolve_id(d.0)
                == g.ids[i],
        forall|i: int, d: DependencyView|
            0 <= i < g.ids.len() && #[trigger] g.entries[i].build_before_set().contains(d) ==> g.resolve_id(d.0)
                == g.ids[i],
        g.is_sort_outcome(s),
    ensures
        s is Ok,
{
    assert(!g.has_missing());
    assert forall|a: int, b: int| !g.dep_edge(a, b) by {
        lemma_dependency_edges(g, a, b);
        if g.dep_edge(a, b) {
            let d = choose|d: DependencyView| #[trigger] orders(g, d, a, b);
            if g.entries[b].build_after_set().contains(d) {
                assert(g.resolve_id(d.0) == g.ids[b]);
            } else {
                assert(g.resolve_id(d.0) == g.ids[a]);
            }
            assert(g.ids[a] != g.ids[b]) by {
                if a < b {
                    assert(g.ids[a] != g.ids[b]);
                } else {
                    assert(g.ids[b] != g.ids[a]);
                }
            }
        }
    }
    if let Err(PluginGraphBuildError::CircularDependency(cyc)) = s {
        assert(g.is_dependency_cycle(id_views(cyc@)));
        let ns = choose|ns: Seq<int>|
            #![trigger g.is_reverse_dep_walk(ns)]
            g.node_seq_matches(ns, id_views(cyc@)) && ns.len() >= 2 && ns[0] == ns[ns.len() - 1]
                && g.is_reverse_dep_walk(ns) && forall|i: int, j: int| 1 <= i < j < ns.len() ==> ns[i] != ns[j];
        assert(g.dep_edge(ns[1], ns[0]));
    }
}

/// Updating a plugin whose id is held by a node, its own or that of the alias group it
/// belongs to, adds no node and changes no alias; when that node holds a plugin of the
/// same type, the first such plugin becomes the new one, and is what a lookup by the id
/// and the type then finds; when it holds none, nothing changes.
pub proof fn lemma_upset_held_plugin<T>(g: GraphModel<T>, p: PluginRecord<T>)
    requires
        g.ids_distinct(),
        g.ids.len() == g.entries.len(),
        g.resolve_node(p.id@) is Some,
    ensures
        g.upset_plugin(p).ids == g.ids,
        g.upset_plugin(p).aliases == g.aliases,
        g.upset_plugin(p).entries.len() == g.entries.len(),
        ({
            let i = g.resolve_node(p.id@).unwrap();
            match first_of_type(g.entries[i].records, p.type_id) {
                Some(j) => {
                    &&& g.upset_plugin(p).resolve_node(p.id@) == Some(i)
                    &&& first_of_type(g.upset_plugin(p).entries[i].records, p.type_id) == Some(j)
                    &&& g.upset_plugin(p).entries[i].records[j] == p
                    &&& forall|k: int| 0 <= k < g.entries.len() && k != i ==> #[trigger] g.upset_plugin(p).entries[k]
                        == g.entries[k]
                },
                None => g.upset_plugin(p) == g,
            }
        }),
{
    let i = g.resolve_node(p.id@).unwrap();
    assert(0 <= i < g.ids.len()) by {
        if g.node_of(p.id@) is None {
            assert(0 <= g.node_of(g.aliases[p.id@]).unwrap() < g.ids.len());
        }
    }
    lemma_first_of_type_range(g.entries[i].records, p.type_id);
    if let Some(j) = first_of_type(g.entries[i].records, p.type_id) {
        let g2 = g.upset_plugin(p);
        let rs = g.entries[i].records;
        let rs2 = g2.entries[i].records;
        assert(rs2 == rs.update(j, p));
        assert forall|k: int| 0 <= k < rs.len() implies #[trigger] rs[k].type_id == rs2[k].type_id by {}
        lemma_first_of_type_same_types(rs, rs2, p.type_id);
        assert(g2.ids == g.ids && g2.aliases == g.aliases);
        assert(g2.resolve_node(p.id@) == g.resolve_node(p.id@));
    }
}

/// A dependency of a node is missing exactly when it is required and no node at all has
/// the id it stands for (directly or through an alias): an optional dependency is never
/// missing, and one that stands for the node's own id is not missing.
pub proof fn lemma_missing_dependency<T>(g: GraphModel<T>, i: int, d: DependencyView)
    requires
        g.ids_distinct(),
        0 <= i < g.ids.len(),
    ensures
        g.is_missing(i, d) == (d.1 && forall|a: int| 0 <= a < g.ids.len() ==> #[trigger] g.ids[a] != g.resolve_id(d.0)),
{
    let x = g.resolve_id(d.0);
    if exists|a: int| 0 <= a < g.ids.len() && #[trigger] g.ids[a] == x {
        let a = choose|a: int| 0 <= a < g.ids.len() && #[trigger] g.ids[a] == x;
        lemma_node_of_index(g, a);
    }
}

} // verus!
