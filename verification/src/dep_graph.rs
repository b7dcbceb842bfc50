//! The directed graph of plugin dependencies, held in a `petgraph` graph, and the
//! mathematical notions (walks, cycles, topological orders) its contracts use.

use crate::plugin_id::PluginId;
use petgraph::graph::{Graph, NodeIndex};
use petgraph::visit::EdgeRef;
use petgraph::{Directed, Outgoing};
use vstd::prelude::*;

verus! {

#[verifier::external_type_specification]
#[verifier::external_body]
#[verifier::reject_recursive_types(N)]
#[verifier::reject_recursive_types(E)]
#[verifier::reject_recursive_types(Ty)]
#[verifier::reject_recursive_types(Ix)]
pub struct ExGraph<N, E, Ty, Ix>(Graph<N, E, Ty, Ix>);

#[verifier::external_type_specification]
#[verifier::external_body]
pub struct ExDirected(Directed);

/// The petgraph graph in which plugin nodes and dependency edges are held.
pub type DepGraph = Graph<PluginId, (), Directed, usize>;

/// What a dependency graph holds: for each node (by index), the targets of its
/// outgoing edges, most recently added first.
pub uninterp spec fn graph_adjacency(g: DepGraph) -> Seq<Seq<int>>;

/// Every edge target is a node of the graph.
pub open spec fn adjacency_well_formed(adj: Seq<Seq<int>>) -> bool {
    forall|a: int, k: int|
        0 <= a < adj.len() && 0 <= k < adj[a].len() ==> 0 <= #[trigger] adj[a][k] < adj.len()
}

/// There is an edge from `a` to `b`.
pub open spec fn has_edge(adj: Seq<Seq<int>>, a: int, b: int) -> bool {
    0 <= a < adj.len() && adj[a].contains(b)
}

/// Every step of `path` follows an edge.
pub open spec fn is_walk(adj: Seq<Seq<int>>, path: Seq<int>) -> bool {
    forall|k: int| 0 <= k < path.len() - 1 ==> has_edge(adj, #[trigger] path[k], path[k + 1])
}

/// Every step of `path` follows an edge backwards: `path` read from its end is a walk.
pub open spec fn is_reverse_walk(adj: Seq<Seq<int>>, path: Seq<int>) -> bool {
    forall|k: int| 0 <= k < path.len() - 1 ==> has_edge(adj, path[k + 1], #[trigger] path[k])
}

/// Node `n` lies on a cycle: some walk of at least one edge leads from `n` back to `n`.
pub open spec fn on_cycle(adj: Seq<Seq<int>>, n: int) -> bool {
    exists|path: Seq<int>|
        #![trigger is_walk(adj, path)]
        path.len() >= 2 && path[0] == n && path[path.len() - 1] == n && is_walk(adj, path)
}

/// `order` lists every node exactly once, and every edge goes forward in it.
pub open spec fn is_topological_order(adj: Seq<Seq<int>>, order: Seq<int>) -> bool {
    &&& order.len() == adj.len()
    &&& order.no_duplicates()
    &&& forall|k: int| 0 <= k < order.len() ==> 0 <= #[trigger] order[k] < adj.len()
    &&& forall|i: int, j: int|
        0 <= i < order.len() && 0 <= j < order.len() && has_edge(adj, order[i], order[j])
            ==> i < j
}

/// The adjacency of a graph with `n` nodes and no edge.
pub open spec fn edgeless(n: nat) -> Seq<Seq<int>> {
    Seq::new(n, |i: int| Seq::<int>::empty())
}

/// The same sequence, its elements taken as mathematical integers.
pub open spec fn ints(s: Seq<usize>) -> Seq<int> {
    s.map_values(|x: usize| x as int)
}

/// Number of `true` entries.
pub open spec fn count_true(s: Seq<bool>) -> nat
    decreases s.len(),
{
    if s.len() == 0 {
        0
    } else {
        count_true(s.drop_last()) + if s.last() { 1nat } else { 0nat }
    }
}

proof fn lemma_count_true_bound(s: Seq<bool>)
    ensures
        count_true(s) <= s.len(),
    decreases s.len(),
{
    if s.len() > 0 {
        lemma_count_true_bound(s.drop_last());
    }
}

proof fn lemma_count_true_set(s: Seq<bool>, i: int)
    requires
        0 <= i < s.len(),
        !s[i],
    ensures
        count_true(s.update(i, true)) == count_true(s) + 1,
    decreases s.len(),
{
    let t = s.update(i, true);
    if i == s.len() - 1 {
        assert(t.drop_last() =~= s.drop_last());
    } else {
        assert(t.drop_last() =~= s.drop_last().update(i, true));
        lemma_count_true_set(s.drop_last(), i);
    }
}

/// A new, empty graph.
///
/// Calls `Graph::default`, which the petgraph source builds with no node and no edge.
#[verifier::external_body]
pub(crate) fn graph_new() -> (g: DepGraph)
    ensures
        graph_adjacency(g) == Seq::<Seq<int>>::empty(),
{
    Graph::default()
}

/// Number of nodes of the graph.
///
/// Calls `Graph::node_count`.
#[verifier::external_body]
pub(crate) fn graph_node_count(g: &DepGraph) -> (n: usize)
    ensures
        n == graph_adjacency(*g).len(),
{
    g.node_count()
}

/// Adds a node and returns its index.
///
/// Calls `Graph::add_node`: the petgraph source pushes the node at the end, gives it
/// no edge, and never panics with `usize` indices.
#[verifier::external_body]
pub(crate) fn graph_add_node(g: &mut DepGraph, weight: PluginId) -> (n: usize)
    ensures
        n == graph_adjacency(*old(g)).len(),
        graph_adjacency(*final(g)) == graph_adjacency(*old(g)).push(Seq::<int>::empty()),
{
    g.add_node(weight).index()
}

/// Adds an edge from `a` to `b`.
///
/// Calls `Graph::add_edge`, which panics when a node does not exist (excluded here);
/// the new edge is listed first among the outgoing edges of `a`.
#[verifier::external_body]
pub(crate) fn graph_add_edge(g: &mut DepGraph, a: usize, b: usize)
    requires
        a < graph_adjacency(*old(g)).len(),
        b < graph_adjacency(*old(g)).len(),
    ensures
        graph_adjacency(*final(g)) == graph_adjacency(*old(g)).update(
            a as int,
            seq![b as int] + graph_adjacency(*old(g))[a as int],
        ),
{
    g.add_edge(NodeIndex::new(a), NodeIndex::new(b), ());
}

/// The targets of the outgoing edges of `n`, most recently added first.
///
/// Calls `Graph::edges_directed` with `Outgoing`, which petgraph documents to list the
/// edges of a directed graph in reverse order of their addition.
#[verifier::external_body]
pub(crate) fn graph_outgoing(g: &DepGraph, n: usize) -> (r: Vec<usize>)
    requires
        n < graph_adjacency(*g).len(),
    ensures
        r@.len() == graph_adjacency(*g)[n as int].len(),
        forall|k: int| 0 <= k < r@.len() ==> r@[k] as int == #[trigger] graph_adjacency(*g)[n as int][k],
{
    g.edges_directed(NodeIndex::new(n), Outgoing).map(|e| e.target().index()).collect()
}

/// Topological sort of the graph.
///
/// Calls `petgraph::algo::toposort`. Its documentation promises, on an acyclic graph, a
/// vector of the nodes in which each node comes before its successors, and otherwise a
/// `Cycle` error whose node participates in a cycle. Which of the valid orders, and which
/// node of a cycle, comes out is not stated: the source picks them by a search that also
/// depends on the order in which edges were inserted, which the graph's adjacency does
/// not record.
#[verifier::external_body]
pub(crate) fn graph_toposort(g: &DepGraph) -> (r: Result<Vec<usize>, usize>)
    requires
        adjacency_well_formed(graph_adjacency(*g)),
    ensures
        match r {
            Ok(v) => is_topological_order(graph_adjacency(*g), v@.map_values(|x: usize| x as int)),
            Err(c) => c < graph_adjacency(*g).len() && on_cycle(graph_adjacency(*g), c as int),
        },
{
    match petgraph::algo::toposort(&*g, None) {
        Ok(v) => Ok(v.into_iter().map(|n| n.index()).collect()),
        Err(c) => Err(c.node_id().index()),
    }
}

/// Every edge from `x` leads to a marked node other than `c`.
pub open spec fn node_closed(adj: Seq<Seq<int>>, visited: Seq<bool>, c: int, x: int) -> bool {
    forall|y: int| #[trigger] has_edge(adj, x, y) ==> y != c && 0 <= y < visited.len() && visited[y]
}

/// When `c` and every marked node are closed, no walk leads from `c` back to `c`.
proof fn lemma_closed_no_cycle(adj: Seq<Seq<int>>, visited: Seq<bool>, c: int)
    requires
        node_closed(adj, visited, c, c),
        forall|x: int| 0 <= x < visited.len() && #[trigger] visited[x] ==> node_closed(adj, visited, c, x),
    ensures
        !on_cycle(adj, c),
{
    if on_cycle(adj, c) {
        let path = choose|path: Seq<int>|
            #![trigger is_walk(adj, path)]
            path.len() >= 2 && path[0] == c && path[path.len() - 1] == c && is_walk(adj, path);
        assert forall|k: int| 1 <= k < path.len() implies path[k] != c && 0 <= path[k] < visited.len()
            && visited[path[k]] by {
            lemma_walk_stays_marked(adj, visited, c, path, k);
        }
        assert(path[path.len() - 1] != c);
    }
}

proof fn lemma_walk_stays_marked(adj: Seq<Seq<int>>, visited: Seq<bool>, c: int, path: Seq<int>, k: int)
    requires
        node_closed(adj, visited, c, c),
        forall|x: int| 0 <= x < visited.len() && #[trigger] visited[x] ==> node_closed(adj, visited, c, x),
        path.len() >= 2,
        path[0] == c,
        is_walk(adj, path),
        1 <= k < path.len(),
    ensures
        path[k] != c && 0 <= path[k] < visited.len() && visited[path[k]],
    decreases k,
{
    assert(has_edge(adj, path[k - 1], path[k]));
    if k > 1 {
        lemma_walk_stays_marked(adj, visited, c, path, k - 1);
        assert(node_closed(adj, visited, c, path[k - 1]));
    }
}

/// Finds a cycle through `node_in_cycle` by a depth-first search along outgoing edges.
///
/// The result starts and ends with `node_in_cycle` and lists the cycle backwards: each
/// node has an edge to the node listed before it, and no node after the first is listed
/// twice: the result is one simple cycle. When no edge leads back to `node_in_cycle`, the
/// result is that node alone.
pub(crate) fn find_cycle(node_in_cycle: usize, graph: &DepGraph) -> (r: Vec<usize>)
    requires
        node_in_cycle < graph_adjacency(*graph).len(),
        adjacency_well_formed(graph_adjacency(*graph)),
    ensures
        r@.len() >= 1,
        r@[0] == node_in_cycle,
        forall|k: int| 0 <= k < r@.len() ==> #[trigger] r@[k] < graph_adjacency(*graph).len(),
        r@.len() >= 2 ==> r@[r@.len() - 1] == node_in_cycle,
        is_reverse_walk(graph_adjacency(*graph), ints(r@)),
        on_cycle(graph_adjacency(*graph), node_in_cycle as int) ==> r@.len() >= 2,
        forall|i: int, j: int| 1 <= i < j < r@.len() ==> r@[i] != r@[j],
{
    let ghost adj = graph_adjacency(*graph);
    let ghost c = node_in_cycle as int;
    let n = graph_node_count(graph);
    let mut visited: Vec<bool> = Vec::new();
    let mut i: usize = 0;
    while i < n
        invariant
            i <= n,
            visited@.len() == i,
            forall|j: int| 0 <= j < i ==> !#[trigger] visited@[j],
        decreases n - i,
    {
        visited.push(false);
        i = i + 1;
    }
    proof {
        assert(count_true(visited@) == 0) by {
            assert forall|m: nat| m <= visited@.len() implies #[trigger] count_true(visited@.take(m as int)) == 0 by {
                lemma_count_true_prefix_zero(visited@, m);
            }
            assert(visited@.take(visited@.len() as int) =~= visited@);
        }
    }
    // Search tree: `arena_node[k]` is a node reached from `node_in_cycle`, and
    // `arena_parent[k]` the tree entry it was reached from (entry 0 is the root).
    let mut arena_node: Vec<usize> = Vec::new();
    let mut arena_parent: Vec<usize> = Vec::new();
    arena_node.push(node_in_cycle);
    arena_parent.push(0);
    let mut to_visit: Vec<usize> = Vec::new();
    to_visit.push(0);
    assert(to_visit@[0] == 0usize);
    while to_visit.len() > 0
        invariant
            n == adj.len(),
            adj == graph_adjacency(*graph),
            adjacency_well_formed(adj),
            c == node_in_cycle,
            node_in_cycle < n,
            visited@.len() == n,
            arena_node@.len() == arena_parent@.len(),
            arena_node@.len() == count_true(visited@) + 1,
            arena_node@[0] == node_in_cycle,
            !visited@[c],
            forall|j: int| 1 <= j < arena_node@.len() ==> visited@[#[trigger] arena_node@[j] as int],
            forall|j1: int, j2: int|
                0 <= j1 < j2 < arena_node@.len() ==> arena_node@[j1] != arena_node@[j2],
            forall|k: int| 0 <= k < arena_node@.len() ==> #[trigger] arena_node@[k] < n,
            forall|k: int|
                1 <= k < arena_node@.len() ==> #[trigger] arena_parent@[k] < k && has_edge(
                    adj,
                    arena_node@[arena_parent@[k] as int] as int,
                    arena_node@[k] as int,
                ),
            forall|k: int| 0 <= k < to_visit@.len() ==> #[trigger] to_visit@[k] < arena_node@.len(),
            to_visit@.no_duplicates(),
            forall|x: int|
                0 <= x < n && #[trigger] visited@[x] ==> exists|k: int|
                    0 <= k < arena_node@.len() && #[trigger] arena_node@[k] as int == x,
            forall|k: int|
                0 <= k < arena_node@.len() && !to_visit@.contains(k as usize) ==> node_closed(
                    adj,
                    visited@,
                    c,
                    #[trigger] arena_node@[k] as int,
                ),
        decreases n - count_true(visited@), to_visit@.len(),
    {
        proof {
            lemma_count_true_bound(visited@);
        }
        let ghost stack_before = to_visit@;
        let next = to_visit.pop().unwrap();
        proof {
            assert(stack_before == to_visit@.push(next));
            assert(!to_visit@.contains(next)) by {
                if to_visit@.contains(next) {
                    let q = choose|q: int| 0 <= q < to_visit@.len() && to_visit@[q] == next;
                    assert(stack_before[q] == stack_before[stack_before.len() - 1]);
                }
            }
            assert forall|k: int| 0 <= k < arena_node@.len() && !to_visit@.contains(k as usize) && k != next
                implies node_closed(adj, visited@, c, #[trigger] arena_node@[k] as int) by {
                if stack_before.contains(k as usize) {
                    let q = choose|q: int| 0 <= q < stack_before.len() && stack_before[q] == k as usize;
                    if q < to_visit@.len() {
                        assert(to_visit@[q] == k as usize);
                        assert(to_visit@.contains(k as usize));
                        assert(false);
                    } else {
                        assert(stack_before[stack_before.len() - 1] == next);
                        assert(q == stack_before.len() - 1);
                        assert(k as usize == next);
                        assert(arena_node@.len() <= n + 1) by {
                            lemma_count_true_bound(visited@);
                        }
                        assert(k == next as int);
                    }
                } else {
                    assert(node_closed(adj, visited@, c, arena_node@[k] as int));
                }
            }
        }
        let current = arena_node[next];
        let children = graph_outgoing(graph, current);
        let ghost count_before = count_true(visited@);
        let ghost stack_after_pop = to_visit@.len();
        let mut k: usize = 0;
        while k < children.len()
            invariant
                n == adj.len(),
                adj == graph_adjacency(*graph),
                adjacency_well_formed(adj),
                c == node_in_cycle,
                node_in_cycle < n,
                visited@.len() == n,
                arena_node@.len() == arena_parent@.len(),
                arena_node@.len() == count_true(visited@) + 1,
                arena_node@[0] == node_in_cycle,
                !visited@[c],
                forall|j: int| 1 <= j < arena_node@.len() ==> visited@[#[trigger] arena_node@[j] as int],
                forall|j1: int, j2: int|
                    0 <= j1 < j2 < arena_node@.len() ==> arena_node@[j1] != arena_node@[j2],
                forall|j: int| 0 <= j < arena_node@.len() ==> #[trigger] arena_node@[j] < n,
                forall|j: int|
                    1 <= j < arena_node@.len() ==> #[trigger] arena_parent@[j] < j && has_edge(
                        adj,
                        arena_node@[arena_parent@[j] as int] as int,
                        arena_node@[j] as int,
                    ),
                forall|j: int| 0 <= j < to_visit@.len() ==> #[trigger] to_visit@[j] < arena_node@.len(),
                to_visit@.no_duplicates(),
                !to_visit@.contains(next),
                forall|x: int|
                    0 <= x < n && #[trigger] visited@[x] ==> exists|j: int|
                        0 <= j < arena_node@.len() && #[trigger] arena_node@[j] as int == x,
                forall|j: int|
                    0 <= j < arena_node@.len() && !to_visit@.contains(j as usize) && j != next ==> node_closed(
                        adj,
                        visited@,
                        c,
                        #[trigger] arena_node@[j] as int,
                    ),
                next < arena_node@.len(),
                current == arena_node@[next as int],
                current < n,
                children@.len() == adj[current as int].len(),
                forall|j: int| 0 <= j < children@.len() ==> children@[j] as int == #[trigger] adj[current as int][j],
                k <= children@.len(),
                forall|j: int|
                    0 <= j < k ==> #[trigger] adj[current as int][j] != c && visited@[adj[current as int][j]],
                count_true(visited@) >= count_before,
                count_true(visited@) == count_before ==> to_visit@.len() == stack_after_pop,
            decreases children@.len() - k,
        {
            let child = children[k];
            assert(adj[current as int][k as int] == child as int);
            if child == node_in_cycle {
                let mut nodes: Vec<usize> = Vec::new();
                nodes.push(node_in_cycle);
                nodes.push(current);
                assert(has_edge(adj, current as int, node_in_cycle as int));
                let mut cur = next;
                let ghost mut idxs: Seq<int> = seq![next as int];
                while cur != 0
                    invariant
                        adjacency_well_formed(adj),
                        c == node_in_cycle,
                        forall|j: int| 1 <= j < arena_node@.len() ==> #[trigger] arena_node@[j] != node_in_cycle,
                        forall|j1: int, j2: int|
                            0 <= j1 < j2 < arena_node@.len() ==> arena_node@[j1] != arena_node@[j2],
                        idxs.len() == nodes@.len() - 1,
                        idxs[idxs.len() - 1] == cur,
                        forall|m: int| 0 <= m < idxs.len() ==> 0 <= #[trigger] idxs[m] < arena_node@.len(),
                        forall|m: int| 0 <= m < idxs.len() ==> nodes@[m + 1] == arena_node@[#[trigger] idxs[m]],
                        forall|m1: int, m2: int| 0 <= m1 < m2 < idxs.len() ==> idxs[m1] > idxs[m2],
                        arena_node@.len() == arena_parent@.len(),
                        arena_node@[0] == node_in_cycle,
                        forall|j: int|
                            1 <= j < arena_node@.len() ==> #[trigger] arena_parent@[j] < j && has_edge(
                                adj,
                                arena_node@[arena_parent@[j] as int] as int,
                                arena_node@[j] as int,
                            ),
                        cur < arena_node@.len(),
                        nodes@.len() >= 2,
                        nodes@[0] == node_in_cycle,
                        node_in_cycle < n,
                        n == adj.len(),
                        forall|j: int| 0 <= j < arena_node@.len() ==> #[trigger] arena_node@[j] < n,
                        forall|j: int| 0 <= j < nodes@.len() ==> #[trigger] nodes@[j] < n,
                        nodes@[nodes@.len() - 1] == arena_node@[cur as int],
                        is_reverse_walk(adj, ints(nodes@)),
                    decreases cur,
                {
                    let ghost prev = nodes@;
                    let ghost prev_cur = cur;
                    cur = arena_parent[cur];
                    nodes.push(arena_node[cur]);
                    proof {
                        idxs = idxs.push(cur as int);
                    }
                    assert(has_edge(adj, arena_node@[cur as int] as int, arena_node@[prev_cur as int] as int));
                    assert forall|j: int| 0 <= j < nodes@.len() - 1 implies has_edge(
                        adj,
                        ints(nodes@)[j + 1],
                        #[trigger] ints(nodes@)[j],
                    ) by {
                        if j < prev.len() - 1 {
                            assert(ints(prev)[j] == ints(nodes@)[j]);
                            assert(ints(prev)[j + 1] == ints(nodes@)[j + 1]);
                        }
                    }
                }
                proof {
                    assert forall|i: int, j: int| 1 <= i < j < nodes@.len() implies nodes@[i] != nodes@[j] by {
                        assert(nodes@[i] == arena_node@[idxs[i - 1]]);
                        assert(nodes@[j] == arena_node@[idxs[j - 1]]);
                        assert(idxs[i - 1] > idxs[j - 1]);
                    }
                }
                return nodes;
            }
            if !visited[child] {
                let ghost vis_before = visited@;
                let ghost arena_before = arena_node@;
                proof {
                    lemma_count_true_set(visited@, child as int);
                }
                visited.set(child, true);
                arena_node.push(child);
                arena_parent.push(next);
                let ghost stack_prev = to_visit@;
                to_visit.push(arena_node.len() - 1);
                proof {
                    let new_index = (arena_node@.len() - 1) as usize;
                    assert(!stack_prev.contains(new_index)) by {
                        if stack_prev.contains(new_index) {
                            let q = choose|q: int| 0 <= q < stack_prev.len() && stack_prev[q] == new_index;
                        }
                    }
                    assert forall|x: int| 0 <= x < n && #[trigger] visited@[x] implies exists|j: int|
                        0 <= j < arena_node@.len() && #[trigger] arena_node@[j] as int == x by {
                        if x == child {
                            assert(arena_node@[arena_node@.len() - 1] as int == x);
                        } else {
                            assert(vis_before[x]);
                            let j = choose|j: int| 0 <= j < arena_before.len() && #[trigger] arena_before[j] as int == x;
                            assert(arena_node@[j] as int == x);
                        }
                    }
                    assert forall|j: int|
                        0 <= j < arena_node@.len() && !to_visit@.contains(j as usize) && j != next implies node_closed(
                            adj,
                            visited@,
                            c,
                            #[trigger] arena_node@[j] as int,
                        ) by {
                        assert(j < arena_node@.len() - 1) by {
                            if j == arena_node@.len() - 1 {
                                assert(to_visit@[to_visit@.len() - 1] == j as usize);
                            }
                        }
                        assert(!stack_prev.contains(j as usize)) by {
                            if stack_prev.contains(j as usize) {
                                let q = choose|q: int| 0 <= q < stack_prev.len() && stack_prev[q] == j as usize;
                                assert(to_visit@[q] == j as usize);
                            }
                        }
                        assert(node_closed(adj, vis_before, c, arena_node@[j] as int));
                        assert forall|y: int| #[trigger] has_edge(adj, arena_node@[j] as int, y) implies y != c && 0 <= y < visited@.len() && visited@[y] by {
                            assert(vis_before[y]);
                        }
                    }
                    assert(!to_visit@.contains(next)) by {
                        if to_visit@.contains(next) {
                            let q = choose|q: int| 0 <= q < to_visit@.len() && to_visit@[q] == next;
                            if q < stack_prev.len() {
                                assert(stack_prev[q] == next);
                            }
                        }
                    }
                    assert forall|j: int| 0 <= j < k implies #[trigger] adj[current as int][j] != c && visited@[adj[current as int][j]] by {
                        assert(vis_before[adj[current as int][j]]);
                    }
                }
            }
            k = k + 1;
        }
        proof {
            lemma_count_true_bound(visited@);
            assert(node_closed(adj, visited@, c, current as int)) by {
                assert forall|y: int| #[trigger] has_edge(adj, current as int, y) implies y != c && 0 <= y < visited@.len() && visited@[y] by {
                    let w = choose|w: int| 0 <= w < adj[current as int].len() && adj[current as int][w] == y;
                    assert(adj[current as int][w] != c && visited@[adj[current as int][w]]);
                }
            }
        }
    }
    proof {
        assert(node_closed(adj, visited@, c, c)) by {
            assert(!to_visit@.contains(0usize));
        }
        assert forall|x: int| 0 <= x < visited@.len() && #[trigger] visited@[x] implies node_closed(adj, visited@, c, x) by {
            let j = choose|j: int| 0 <= j < arena_node@.len() && #[trigger] arena_node@[j] as int == x;
            assert(!to_visit@.contains(j as usize));
        }
        lemma_closed_no_cycle(adj, visited@, c);
    }
    let mut single: Vec<usize> = Vec::new();
    single.push(node_in_cycle);
    single
}

proof fn lemma_count_true_prefix_zero(s: Seq<bool>, m: nat)
    requires
        m <= s.len(),
        forall|j: int| 0 <= j < s.len() ==> !#[trigger] s[j],
    ensures
        count_true(s.take(m as int)) == 0,
    decreases m,
{
    if m > 0 {
        assert(s.take(m as int).drop_last() =~= s.take(m - 1));
        lemma_count_true_prefix_zero(s, (m - 1) as nat);
    }
}

} // verus!
