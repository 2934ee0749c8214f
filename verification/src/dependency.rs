//! The dependency graph of the plugins.
//!
//! A node is a plugin name. An edge runs from a dependency to the plugin
//! that needs it, so that walking forward from a plugin reaches everything
//! that depends on it. The graph itself is a `petgraph` graph; this module
//! keeps the names beside it and reasons about what the graph holds.

use vstd::prelude::*;
use vstd::multiset::Multiset;
use vstd::string::*;
use petgraph::graph::Graph;
use petgraph::Directed;
use petgraph::Direction;
use petgraph::visit::Walker;
use crate::error::Error;
use crate::text::{join_strings, joined, join2, lemma_names_push, list_contains, names_of, str_eq};

verus! {

broadcast use vstd::multiset::group_multiset_axioms;

/// `petgraph::Directed`, the marker of graphs with directed edges.
#[verifier::external_type_specification]
#[verifier::external_body]
pub struct ExDirected(Directed);

/// `petgraph::Direction`, the two directions of an edge seen from a node.
#[verifier::external_type_specification]
pub struct ExDirection(Direction);

/// `petgraph::graph::Graph`, an adjacency-list graph whose nodes and edges
/// are numbered from zero without gaps.
#[verifier::external_type_specification]
#[verifier::external_body]
#[verifier::reject_recursive_types(N)]
#[verifier::reject_recursive_types(E)]
#[verifier::reject_recursive_types(Ty)]
#[verifier::reject_recursive_types(Ix)]
pub struct ExGraph<N, E, Ty, Ix>(Graph<N, E, Ty, Ix>);

/// The node weights of a graph, by node index.
pub uninterp spec fn graph_nodes(g: Graph<String, (), Directed, u32>) -> Seq<Seq<char>>;

/// The edges of a graph, each as the indices of its source and its target.
/// Parallel edges count separately.
pub uninterp spec fn graph_edges(g: Graph<String, (), Directed, u32>) -> Multiset<(int, int)>;

/// What `petgraph::algo::toposort` returns for a graph: the node indices in
/// topological order, or a node on a cycle.
pub uninterp spec fn toposort_of(g: Graph<String, (), Directed, u32>) -> Result<Seq<int>, int>;

/// What `petgraph::algo::kosaraju_scc` returns for a graph: its strongly
/// connected components, each as a list of node indices.
pub uninterp spec fn components_of(g: Graph<String, (), Directed, u32>) -> Seq<Seq<int>>;

/// Whether `edges` holds an edge from `a` to `b`.
pub open spec fn has_edge(edges: Multiset<(int, int)>, a: int, b: int) -> bool {
    edges.count((a, b)) > 0
}

/// Whether every edge of `edges` joins two of the nodes `0..n`.
pub open spec fn edges_within(edges: Multiset<(int, int)>, n: int) -> bool {
    forall|a: int, b: int| #[trigger] has_edge(edges, a, b) ==> 0 <= a < n && 0 <= b < n
}

/// Whether `edges` holds an edge from node `i` of `walk` to the next.
pub open spec fn step_ok(edges: Multiset<(int, int)>, walk: Seq<int>, i: int) -> bool {
    has_edge(edges, walk[i], walk[i + 1])
}

/// Whether `walk` is a walk along `edges`: at least one node, and an edge
/// from each node to the next.
pub open spec fn is_walk(edges: Multiset<(int, int)>, walk: Seq<int>) -> bool {
    &&& walk.len() >= 1
    &&& forall|i: int| 0 <= i < walk.len() - 1 ==> #[trigger] step_ok(edges, walk, i)
}

/// Whether a walk along `edges` leads from `a` to `b`. Every node reaches itself.
pub open spec fn reaches(edges: Multiset<(int, int)>, a: int, b: int) -> bool {
    exists|walk: Seq<int>| is_walk(edges, walk) && walk.first() == a && walk.last() == b
}

/// Whether `a` lies on a cycle of `edges`. A self-loop is a cycle.
pub open spec fn on_cycle(edges: Multiset<(int, int)>, a: int) -> bool {
    exists|walk: Seq<int>|
        is_walk(edges, walk) && walk.len() >= 2 && walk.first() == a && walk.last() == a
}

/// Whether `edges` has a cycle.
pub open spec fn cyclic(edges: Multiset<(int, int)>) -> bool {
    exists|a: int| on_cycle(edges, a)
}

/// Whether `order` lists each of the nodes `0..n` once, every node before
/// the nodes that its edges lead to.
pub open spec fn is_topological_order(edges: Multiset<(int, int)>, n: int, order: Seq<int>) -> bool {
    &&& order.len() == n
    &&& forall|i: int| 0 <= i < order.len() ==> 0 <= #[trigger] order[i] < n
    &&& forall|v: int| 0 <= v < n ==> #[trigger] order.contains(v)
    &&& forall|i: int, j: int| 0 <= i < j < order.len() ==> order[i] != order[j]
    &&& forall|i: int, j: int|
        0 <= i < order.len() && 0 <= j < order.len() && #[trigger] has_edge(edges, order[i], order[j])
            ==> i < j
}

/// Whether `v` occurs in one of `parts`.
pub open spec fn in_some_part(parts: Seq<Seq<int>>, v: int) -> bool {
    exists|i: int, j: int|
        0 <= i < parts.len() && 0 <= j < parts[i].len() && #[trigger] parts[i][j] == v
}

/// Whether `parts` splits the nodes `0..n` into the strongly connected
/// components of `edges`: every node is in exactly one place, and two
/// nodes are in the same part just when each reaches the other.
pub open spec fn is_component_split(edges: Multiset<(int, int)>, n: int, parts: Seq<Seq<int>>) -> bool {
    &&& forall|i: int, j: int|
        0 <= i < parts.len() && 0 <= j < parts[i].len() ==> 0 <= #[trigger] parts[i][j] < n
    &&& forall|v: int| 0 <= v < n ==> #[trigger] in_some_part(parts, v)
    &&& forall|i: int, j: int, k: int, l: int|
        0 <= i < parts.len() && 0 <= j < parts[i].len() && 0 <= k < parts.len() && 0 <= l
            < parts[k].len() && #[trigger] parts[i][j] == #[trigger] parts[k][l] ==> i == k && j == l
    &&& forall|i: int, j: int, k: int, l: int|
        0 <= i < parts.len() && 0 <= j < parts[i].len() && 0 <= k < parts.len() && 0 <= l
            < parts[k].len() ==> ((i == k) <==> (reaches(edges, #[trigger] parts[i][j], #[trigger] parts[k][l])
            && reaches(edges, parts[k][l], parts[i][j])))
}

/// The indices of a vector of indices, as integers.
pub open spec fn ints_of(v: Seq<usize>) -> Seq<int> {
    v.map_values(|x: usize| x as int)
}

/// The indices of a vector of vectors of indices, as integers.
pub open spec fn int_lists_of(v: Seq<Vec<usize>>) -> Seq<Seq<int>> {
    v.map_values(|x: Vec<usize>| ints_of(x@))
}

/// `Graph::new` makes a graph without nodes and edges.
#[verifier::external_body]
fn graph_new() -> (g: Graph<String, (), Directed, u32>)
    ensures
        graph_nodes(g) == Seq::<Seq<char>>::empty(),
        graph_edges(g) == Multiset::<(int, int)>::empty(),
{
    Graph::new()
}

/// `Graph::add_node` appends a node with the given weight and returns its
/// index, which is the number of nodes before. The edges stay. It panics
/// when the indices are used up, which the precondition leaves out.
#[verifier::external_body]
fn graph_add_node(g: &mut Graph<String, (), Directed, u32>, name: String) -> (index: usize)
    requires
        graph_nodes(*old(g)).len() < u32::MAX,
    ensures
        index == graph_nodes(*old(g)).len(),
        graph_nodes(*final(g)) == graph_nodes(*old(g)).push(name@),
        graph_edges(*final(g)) == graph_edges(*old(g)),
{
    g.add_node(name).index()
}

/// `Graph::add_edge` adds one edge from `a` to `b`, beside any that exist
/// already. The nodes stay. It panics when a node is missing or the
/// indices are used up, which the precondition leaves out.
#[verifier::external_body]
fn graph_add_edge(g: &mut Graph<String, (), Directed, u32>, a: usize, b: usize)
    requires
        a < graph_nodes(*old(g)).len(),
        b < graph_nodes(*old(g)).len(),
        graph_edges(*old(g)).len() < u32::MAX,
    ensures
        graph_nodes(*final(g)) == graph_nodes(*old(g)),
        graph_edges(*final(g)) == graph_edges(*old(g)).insert((a as int, b as int)),
{
    g.add_edge(petgraph::graph::NodeIndex::new(a), petgraph::graph::NodeIndex::new(b), ());
}

/// The index that a node has before node `a` is removed from a graph of
/// `n` nodes, given the index it has afterwards: the last node moves into
/// the gap, the others stay.
pub open spec fn index_before_removal(index: int, a: int, n: int) -> int {
    if index == a {
        n - 1
    } else {
        index
    }
}

/// The nodes that are left of `nodes` once node `a` is removed: the last
/// node in the place of `a`, the others where they were.
pub open spec fn nodes_without(nodes: Seq<Seq<char>>, a: int) -> Seq<Seq<char>> {
    nodes.update(a, nodes.last()).drop_last()
}

/// Whether `after` holds just the edges of `before` that do not touch
/// node `a`, each between the indices that its nodes have once `a` is
/// removed from the `n` nodes.
pub open spec fn edges_without(
    before: Multiset<(int, int)>,
    after: Multiset<(int, int)>,
    a: int,
    n: int,
) -> bool {
    forall|x: int, y: int|
        #![trigger after.count((x, y))]
        after.count((x, y)) == if 0 <= x < n - 1 && 0 <= y < n - 1 {
            before.count((index_before_removal(x, a, n), index_before_removal(y, a, n)))
        } else {
            0
        }
}

/// The edges of `edges` from or to node `a`.
pub open spec fn touching(edges: Multiset<(int, int)>, a: int) -> Multiset<(int, int)> {
    edges.filter(|e: (int, int)| e.0 == a || e.1 == a)
}

/// Removing a node removes as many edges as touch it.
pub proof fn lemma_edges_without_len(
    before: Multiset<(int, int)>,
    after: Multiset<(int, int)>,
    a: int,
    n: int,
)
    requires
        edges_without(before, after, a, n),
        edges_within(before, n),
        0 <= a < n,
    ensures
        after.len() + touching(before, a).len() == before.len(),
    decreases before.len(),
{
    if before.len() == 0 {
        vstd::multiset::lemma_multiset_empty_len(before);
        assert(after =~= Multiset::<(int, int)>::empty()) by {
            assert forall|p: (int, int)| after.count(p) == 0 by {
                assert(after.count((p.0, p.1)) == 0);
            }
        }
        assert(touching(before, a) =~= Multiset::<(int, int)>::empty());
        vstd::multiset::lemma_multiset_empty_len(after);
        vstd::multiset::lemma_multiset_empty_len(touching(before, a));
    } else {
        let e = before.choose();
        vstd::multiset::axiom_choose_count(before);
        let rest = before.remove(e);
        assert(before =~= rest.insert(e));
        vstd::multiset::lemma_insert_len(rest, e);
        assert(has_edge(before, e.0, e.1));
        assert(edges_within(rest, n)) by {
            assert forall|x: int, y: int| #[trigger] has_edge(rest, x, y) implies 0 <= x < n && 0 <= y
                < n by {
                assert(has_edge(before, x, y));
            }
        }
        if e.0 == a || e.1 == a {
            assert(edges_without(rest, after, a, n)) by {
                assert forall|x: int, y: int|
                    #![trigger after.count((x, y))]
                    after.count((x, y)) == if 0 <= x < n - 1 && 0 <= y < n - 1 {
                        rest.count((index_before_removal(x, a, n), index_before_removal(y, a, n)))
                    } else {
                        0
                    } by {
                    if 0 <= x < n - 1 && 0 <= y < n - 1 {
                        let p = (index_before_removal(x, a, n), index_before_removal(y, a, n));
                        assert(p != e);
                    }
                }
            }
            assert(touching(before, a) =~= touching(rest, a).insert(e));
            vstd::multiset::lemma_insert_len(touching(rest, a), e);
            lemma_edges_without_len(rest, after, a, n);
        } else {
            let moved = (
                if e.0 == n - 1 {
                    a
                } else {
                    e.0
                },
                if e.1 == n - 1 {
                    a
                } else {
                    e.1
                },
            );
            assert(index_before_removal(moved.0, a, n) == e.0);
            assert(index_before_removal(moved.1, a, n) == e.1);
            assert(after.count((moved.0, moved.1)) == before.count(e));
            let fewer = after.remove(moved);
            assert(after =~= fewer.insert(moved));
            vstd::multiset::lemma_insert_len(fewer, moved);
            assert(edges_without(rest, fewer, a, n)) by {
                assert forall|x: int, y: int|
                    #![trigger fewer.count((x, y))]
                    fewer.count((x, y)) == if 0 <= x < n - 1 && 0 <= y < n - 1 {
                        rest.count((index_before_removal(x, a, n), index_before_removal(y, a, n)))
                    } else {
                        0
                    } by {
                    assert(after.count((x, y)) == if 0 <= x < n - 1 && 0 <= y < n - 1 {
                        before.count((index_before_removal(x, a, n), index_before_removal(y, a, n)))
                    } else {
                        0
                    });
                    if 0 <= x < n - 1 && 0 <= y < n - 1 {
                        let p = (index_before_removal(x, a, n), index_before_removal(y, a, n));
                        assert(((x, y) == moved) <==> (p == e));
                    }
                }
            }
            assert(touching(before, a) =~= touching(rest, a));
            lemma_edges_without_len(rest, fewer, a, n);
        }
    }
}

/// `Graph::remove_node` removes node `a` with every edge from or to it and
/// returns its weight. The last node takes the index `a`; the other
/// indices stay. The edges that remain join the same nodes as before.
#[verifier::external_body]
fn graph_remove_node(g: &mut Graph<String, (), Directed, u32>, a: usize) -> (weight: Option<String>)
    requires
        a < graph_nodes(*old(g)).len(),
    ensures
        weight matches Some(w) && w@ == graph_nodes(*old(g))[a as int],
        graph_nodes(*final(g)) == nodes_without(graph_nodes(*old(g)), a as int),
        edges_without(
            graph_edges(*old(g)),
            graph_edges(*final(g)),
            a as int,
            graph_nodes(*old(g)).len() as int,
        ),
{
    g.remove_node(petgraph::graph::NodeIndex::new(a))
}

/// `Graph::neighbors_directed` lists the nodes at the other end of the
/// edges from `a` (outgoing) or to `a` (incoming), in no order that is
/// promised here. This is stated of the nodes of the graph.
#[verifier::external_body]
fn graph_neighbors(g: &Graph<String, (), Directed, u32>, a: usize, direction: Direction) -> (r: Vec<
    usize,
>)
    requires
        a < graph_nodes(*g).len(),
    ensures
        forall|i: int| 0 <= i < r@.len() ==> #[trigger] r@[i] < graph_nodes(*g).len(),
        forall|x: int|
            #[trigger] ints_of(r@).contains(x) <==> match direction {
                Direction::Outgoing => has_edge(graph_edges(*g), a as int, x),
                Direction::Incoming => has_edge(graph_edges(*g), x, a as int),
            },
{
    g.neighbors_directed(petgraph::graph::NodeIndex::new(a), direction).map(|n| n.index()).collect()
}

/// `Graph::edge_count` gives the number of edges.
#[verifier::external_body]
fn graph_edge_count(g: &Graph<String, (), Directed, u32>) -> (r: usize)
    ensures
        r == graph_edges(*g).len(),
{
    g.edge_count()
}

/// `petgraph::algo::toposort` returns the nodes in topological order where
/// the graph has no cycle, and otherwise a node that lies on a cycle.
#[verifier::external_body]
fn graph_toposort(g: &Graph<String, (), Directed, u32>) -> (r: Result<Vec<usize>, usize>)
    ensures
        match r {
            Ok(order) => toposort_of(*g) == Ok::<Seq<int>, int>(ints_of(order@))
                && is_topological_order(
                graph_edges(*g),
                graph_nodes(*g).len() as int,
                ints_of(order@),
            ),
            Err(node) => toposort_of(*g) == Err::<Seq<int>, int>(node as int) && node < graph_nodes(
                *g,
            ).len() && on_cycle(graph_edges(*g), node as int),
        },
        r is Ok <==> !cyclic(graph_edges(*g)),
{
    match petgraph::algo::toposort(g, None) {
        Ok(order) => Ok(order.into_iter().map(|n| n.index()).collect()),
        Err(cycle) => Err(cycle.node_id().index()),
    }
}

/// `petgraph::algo::kosaraju_scc` returns the strongly connected components
/// of the graph.
#[verifier::external_body]
fn graph_components(g: &Graph<String, (), Directed, u32>) -> (r: Vec<Vec<usize>>)
    ensures
        int_lists_of(r@) == components_of(*g),
        is_component_split(graph_edges(*g), graph_nodes(*g).len() as int, int_lists_of(r@)),
{
    petgraph::algo::kosaraju_scc(g).into_iter().map(
        |part| part.into_iter().map(|n| n.index()).collect(),
    ).collect()
}

/// A depth-first walk (`petgraph::visit::Dfs`) from `start` against the
/// direction of the edges visits `start` first and then, once each, the
/// nodes from which `start` can be reached. It fails on a start that does
/// not exist, which the precondition leaves out.
#[verifier::external_body]
fn graph_walk_against(g: &Graph<String, (), Directed, u32>, start: usize) -> (r: Vec<usize>)
    requires
        start < graph_nodes(*g).len(),
    ensures
        r@.len() >= 1,
        r@[0] == start,
        forall|i: int| 0 <= i < r@.len() ==> #[trigger] r@[i] < graph_nodes(*g).len(),
        forall|i: int, j: int| 0 <= i < j < r@.len() ==> r@[i] != r@[j],
        forall|x: int|
            0 <= x < graph_nodes(*g).len() ==> (#[trigger] ints_of(r@).contains(x) <==> reaches(
                graph_edges(*g),
                x,
                start as int,
            )),
{
    let reversed = petgraph::visit::Reversed(g);
    petgraph::visit::Dfs::new(reversed, petgraph::graph::NodeIndex::new(start)).iter(reversed).map(
        |n| n.index(),
    ).collect()
}

/// A walk that is extended by an edge from its last node is a walk.
pub proof fn lemma_reach_step(edges: Multiset<(int, int)>, a: int, b: int, c: int)
    requires
        reaches(edges, a, b),
        has_edge(edges, b, c),
    ensures
        reaches(edges, a, c),
{
    let walk = choose|walk: Seq<int>| is_walk(edges, walk) && walk.first() == a && walk.last() == b;
    let longer = walk.push(c);
    assert forall|i: int| 0 <= i < longer.len() - 1 implies #[trigger] step_ok(edges, longer, i) by {
        if i < walk.len() - 1 {
            assert(step_ok(edges, walk, i));
        }
    }
    assert(is_walk(edges, longer) && longer.first() == a && longer.last() == c);
}

/// Every node reaches itself.
pub proof fn lemma_reach_self(edges: Multiset<(int, int)>, a: int)
    ensures
        reaches(edges, a, a),
{
    let walk = seq![a];
    assert(is_walk(edges, walk) && walk.first() == a && walk.last() == a);
}

/// A walk that starts inside a set of nodes which no edge leaves stays inside it.
pub proof fn lemma_walk_stays(edges: Multiset<(int, int)>, inside: Set<int>, walk: Seq<int>, k: int)
    requires
        is_walk(edges, walk),
        inside.contains(walk.first()),
        forall|a: int, b: int| inside.contains(a) && #[trigger] has_edge(edges, a, b) ==> inside.contains(b),
        0 <= k < walk.len(),
    ensures
        inside.contains(walk[k]),
    decreases k,
{
    if k > 0 {
        lemma_walk_stays(edges, inside, walk, k - 1);
        assert(step_ok(edges, walk, k - 1));
        assert(has_edge(edges, walk[k - 1], walk[k]));
    }
}

/// The nodes of a walk along edges that join the nodes `0..n` are among
/// `0..n`, if the walk has an edge or starts among them.
pub proof fn lemma_walk_within(edges: Multiset<(int, int)>, n: int, walk: Seq<int>, k: int)
    requires
        is_walk(edges, walk),
        edges_within(edges, n),
        walk.len() >= 2 || 0 <= walk.first() < n,
        0 <= k < walk.len(),
    ensures
        0 <= walk[k] < n,
{
    if walk.len() >= 2 {
        if k < walk.len() - 1 {
            assert(step_ok(edges, walk, k));
            assert(has_edge(edges, walk[k], walk[k + 1]));
        } else {
            assert(step_ok(edges, walk, k - 1));
            assert(has_edge(edges, walk[k - 1], walk[k]));
        }
    }
}

/// An index is among `ints_of(v)` just when it is at some place of `v`.
pub proof fn lemma_ints_contains(v: Seq<usize>, x: int)
    ensures
        ints_of(v).contains(x) <==> exists|i: int| 0 <= i < v.len() && #[trigger] v[i] == x,
{
    if ints_of(v).contains(x) {
        let i = choose|i: int| 0 <= i < ints_of(v).len() && ints_of(v)[i] == x;
        assert(v[i] == x);
    }
    if exists|i: int| 0 <= i < v.len() && #[trigger] v[i] == x {
        let i = choose|i: int| 0 <= i < v.len() && #[trigger] v[i] == x;
        assert(ints_of(v)[i] == x);
    }
}

/// The number of `true` entries of `flags`.
pub open spec fn count_true(flags: Seq<bool>) -> nat
    decreases flags.len(),
{
    if flags.len() == 0 {
        0
    } else {
        count_true(flags.drop_last()) + if flags.last() {
            1nat
        } else {
            0nat
        }
    }
}

proof fn lemma_count_true_bound(flags: Seq<bool>)
    ensures
        count_true(flags) <= flags.len(),
    decreases flags.len(),
{
    if flags.len() > 0 {
        lemma_count_true_bound(flags.drop_last());
    }
}

proof fn lemma_count_true_set(flags: Seq<bool>, i: int)
    requires
        0 <= i < flags.len(),
        !flags[i],
    ensures
        count_true(flags.update(i, true)) == count_true(flags) + 1,
    decreases flags.len(),
{
    let after = flags.update(i, true);
    if i == flags.len() - 1 {
        assert(after.drop_last() =~= flags.drop_last());
    } else {
        lemma_count_true_set(flags.drop_last(), i);
        assert(after.drop_last() =~= flags.drop_last().update(i, true));
    }
}

proof fn lemma_count_true_none(flags: Seq<bool>)
    requires
        forall|i: int| 0 <= i < flags.len() ==> !flags[i],
    ensures
        count_true(flags) == 0,
    decreases flags.len(),
{
    if flags.len() > 0 {
        lemma_count_true_none(flags.drop_last());
    }
}

/// Two walks, the second starting where the first ends, make one walk.
pub proof fn lemma_walk_concat(edges: Multiset<(int, int)>, first: Seq<int>, second: Seq<int>) -> (both:
    Seq<int>)
    requires
        is_walk(edges, first),
        is_walk(edges, second),
        first.last() == second.first(),
    ensures
        is_walk(edges, both),
        both == first + second.drop_first(),
        both.first() == first.first(),
        both.last() == second.last(),
        both.len() == first.len() + second.len() - 1,
{
    let both = first + second.drop_first();
    assert forall|i: int| 0 <= i < both.len() - 1 implies #[trigger] step_ok(edges, both, i) by {
        if i < first.len() - 1 {
            assert(step_ok(edges, first, i));
        } else {
            let k = i - (first.len() - 1);
            assert(step_ok(edges, second, k));
            assert(both[i + 1] == second[k + 1]);
            if k == 0 {
                assert(both[i] == first.last());
            } else {
                assert(both[i] == second[k]);
            }
        }
    }
    both
}

/// The groups of `parts` that hold more than one name, in order.
pub open spec fn groups_with_several(parts: Seq<Seq<Seq<char>>>) -> Seq<Seq<Seq<char>>>
    decreases parts.len(),
{
    if parts.len() == 0 {
        Seq::empty()
    } else if parts.last().len() > 1 {
        groups_with_several(parts.drop_last()).push(parts.last())
    } else {
        groups_with_several(parts.drop_last())
    }
}

/// Each group as text: its names between brackets, separated by commas.
pub open spec fn group_texts(groups: Seq<Seq<Seq<char>>>) -> Seq<Seq<char>> {
    groups.map_values(|g: Seq<Seq<char>>| "["@ + joined(g, ", "@) + "]"@)
}

/// The message that reports circular dependencies, listing the groups.
pub open spec fn circular_text(groups: Seq<Seq<Seq<char>>>) -> Seq<char> {
    "Circular dependencies detected: "@ + joined(group_texts(groups), "; "@)
}

/// The names in each of a list of lists of strings.
pub open spec fn lists_of(v: Seq<Vec<String>>) -> Seq<Seq<Seq<char>>> {
    v.map_values(|g: Vec<String>| names_of(g@))
}

/// Writes the message that reports the circular groups `groups`.
pub fn circular_message(groups: &Vec<Vec<String>>) -> (r: String)
    ensures
        r@ == circular_text(lists_of(groups@)),
{
    let mut texts: Vec<String> = Vec::new();
    let mut i: usize = 0;
    assert(names_of(texts@) =~= group_texts(lists_of(groups@.take(0))));
    while i < groups.len()
        invariant
            i <= groups@.len(),
            names_of(texts@) == group_texts(lists_of(groups@.take(i as int))),
        decreases groups@.len() - i,
    {
        let inner = join_strings(&groups[i], ", ");
        let mut text = String::from_str("[");
        text.append(inner.as_str());
        text.append("]");
        proof {
            lemma_names_push(texts@, text);
            assert(group_texts(lists_of(groups@.take(i + 1))) =~= group_texts(
                lists_of(groups@.take(i as int)),
            ).push(text@));
        }
        texts.push(text);
        i = i + 1;
    }
    assert(groups@.take(i as int) =~= groups@);
    let list = join_strings(&texts, "; ");
    join2("Circular dependencies detected: ", list.as_str())
}

/// Whether no text occurs twice in `names`.
pub open spec fn distinct(names: Seq<Seq<char>>) -> bool {
    forall|i: int, j: int| 0 <= i < j < names.len() ==> names[i] != names[j]
}

/// Counts that describe a dependency graph.
#[derive(Debug, Clone)]
pub struct DependencyGraphStats {
    /// Number of nodes.
    pub total_plugins: usize,
    /// Number of recorded dependencies.
    pub total_dependencies: usize,
}

/// The dependency graph of the plugins, by plugin name.
///
/// Beside the plugins that were added, the graph holds a node for every
/// name that was given as a dependency. Only the former are registered.
pub struct DependencyGraph {
    /// The graph: a node per name, an edge from each dependency to its dependent.
    graph: Graph<String, (), Directed, u32>,
    /// The name of each node, by node index.
    names: Vec<String>,
    /// Whether each node was added as a plugin, by node index.
    registered: Vec<bool>,
}

impl DependencyGraph {
    /// The names in the graph, in the order of their nodes.
    pub closed spec fn nodes(&self) -> Seq<Seq<char>> {
        names_of(self.names@)
    }

    /// Whether `name` is a node of the graph.
    pub open spec fn contains(&self, name: Seq<char>) -> bool {
        self.nodes().contains(name)
    }

    /// The node index of `name`.
    pub closed spec fn index_of(&self, name: Seq<char>) -> int {
        choose|i: int| 0 <= i < self.names@.len() && self.names@[i]@ == name
    }

    /// Whether `name` was added as a plugin, and not only named as a dependency.
    pub closed spec fn is_registered(&self, name: Seq<char>) -> bool {
        self.contains(name) && self.registered@[self.index_of(name)]
    }

    /// Whether the graph records that `dependent` needs `dependency`.
    pub closed spec fn depends_on(&self, dependent: Seq<char>, dependency: Seq<char>) -> bool {
        &&& self.contains(dependent)
        &&& self.contains(dependency)
        &&& has_edge(graph_edges(self.graph), self.index_of(dependency), self.index_of(dependent))
    }

    /// The number of recorded dependencies; one that was recorded twice counts twice.
    pub closed spec fn dependency_total(&self) -> nat {
        graph_edges(self.graph).len()
    }

    /// The names beside the graph match its nodes, no name occurs twice,
    /// and every edge joins two nodes.
    pub closed spec fn wf(&self) -> bool {
        &&& graph_nodes(self.graph) == names_of(self.names@)
        &&& self.registered@.len() == self.names@.len()
        &&& distinct(names_of(self.names@))
        &&& edges_within(graph_edges(self.graph), self.names@.len() as int)
    }

    /// Whether `chain` is a chain of dependencies: each name is needed by the next.
    pub open spec fn is_chain(&self, chain: Seq<Seq<char>>) -> bool {
        &&& chain.len() >= 1
        &&& forall|i: int| 0 <= i < chain.len() - 1 ==> #[trigger] self.link_ok(chain, i)
    }

    /// Whether name `i` of `chain` is needed by the next.
    pub open spec fn link_ok(&self, chain: Seq<Seq<char>>, i: int) -> bool {
        self.depends_on(chain[i + 1], chain[i])
    }

    /// Whether `dependent` needs `dependency`, directly or through other
    /// plugins. Every name needs itself in this sense.
    pub open spec fn needs(&self, dependent: Seq<char>, dependency: Seq<char>) -> bool {
        exists|chain: Seq<Seq<char>>|
            self.is_chain(chain) && chain.first() == dependency && chain.last() == dependent
    }

    /// Whether some plugin needs itself through a chain of at least one dependency.
    pub open spec fn has_cycle(&self) -> bool {
        exists|chain: Seq<Seq<char>>|
            self.is_chain(chain) && chain.len() >= 2 && chain.first() == chain.last()
    }

    /// Whether two different plugins need each other.
    pub open spec fn has_mutual_dependency(&self) -> bool {
        exists|x: Seq<char>, y: Seq<char>| x != y && self.needs(x, y) && self.needs(y, x)
    }

    proof fn lemma_index(&self, i: int)
        requires
            self.wf(),
            0 <= i < self.names@.len(),
        ensures
            self.contains(self.names@[i]@),
            self.index_of(self.names@[i]@) == i,
    {
        let names = names_of(self.names@);
        assert(names[i] == self.names@[i]@);
        let k = self.index_of(self.names@[i]@);
        assert(0 <= k < self.names@.len() && self.names@[k]@ == self.names@[i]@);
        if k != i {
            assert(names[k] == self.names@[k]@);
            if k < i {
                assert(names[k] != names[i]);
            } else {
                assert(names[i] != names[k]);
            }
        }
    }

    proof fn lemma_contained(&self, name: Seq<char>)
        requires
            self.contains(name),
        ensures
            0 <= self.index_of(name) < self.names@.len(),
            self.names@[self.index_of(name)]@ == name,
    {
        let names = names_of(self.names@);
        let i = choose|i: int| 0 <= i < names.len() && names[i] == name;
        assert(self.names@[i]@ == name);
    }

    /// A graph without nodes.
    pub fn new() -> (r: Self)
        ensures
            r.wf(),
            r.nodes().len() == 0,
            r.dependency_total() == 0,
    {
        let r = DependencyGraph { graph: graph_new(), names: Vec::new(), registered: Vec::new() };
        assert(names_of(r.names@) =~= Seq::<Seq<char>>::empty());
        r
    }

    fn find_node(&self, name: &str) -> (r: Option<usize>)
        requires
            self.wf(),
        ensures
            match r {
                Some(i) => i < self.names@.len() && self.names@[i as int]@ == name@ && self.contains(
                    name@,
                ) && self.index_of(name@) == i,
                None => !self.contains(name@),
            },
    {
        let mut i: usize = 0;
        while i < self.names.len()
            invariant
                self.wf(),
                i <= self.names@.len(),
                forall|j: int| 0 <= j < i ==> (#[trigger] self.names@[j])@ != name@,
            decreases self.names@.len() - i,
        {
            if str_eq(self.names[i].as_str(), name) {
                proof {
                    self.lemma_index(i as int);
                }
                return Some(i);
            }
            i = i + 1;
        }
        proof {
            if self.contains(name@) {
                self.lemma_contained(name@);
            }
        }
        None
    }

    /// The node of `name`, made if there is none. With `register`, the node
    /// is marked as a plugin.
    fn get_or_create_node(&mut self, name: String, register: bool) -> (r: usize)
        requires
            old(self).wf(),
            old(self).names@.len() < u32::MAX,
        ensures
            final(self).wf(),
            r < final(self).names@.len(),
            final(self).names@[r as int]@ == name@,
            graph_edges(final(self).graph) == graph_edges(old(self).graph),
            old(self).contains(name@) ==> r == old(self).index_of(name@) && final(self).names@ == old(self).names@ && final(self).registered@ == old(self).registered@.update(
                r as int,
                old(self).registered@[r as int] || register,
            ),
            !old(self).contains(name@) ==> r == old(self).names@.len() && final(self).names@ == old(self).names@.push(name) && final(self).registered@ == old(self).registered@.push(register),
    {
        match self.find_node(name.as_str()) {
            Some(i) => {
                if register {
                    self.registered.set(i, true);
                }
                assert(self.registered@ =~= old(self).registered@.update(
                    i as int,
                    old(self).registered@[i as int] || register,
                ));
                i
            },
            None => {
                proof {
                    lemma_names_push(self.names@, name);
                    assert forall|j: int| 0 <= j < self.names@.len() implies names_of(self.names@)[j]
                        != name@ by {
                        assert(names_of(self.names@)[j] == self.names@[j]@);
                        assert(names_of(self.names@).contains(names_of(self.names@)[j]));
                    }
                }
                let i = graph_add_node(&mut self.graph, name.clone());
                self.names.push(name);
                self.registered.push(register);
                i
            },
        }
    }

    /// The number of nodes.
    pub open spec fn node_count(&self) -> nat {
        self.nodes().len()
    }

    /// Whether `self` is `before` with the plugin `name` added: the nodes
    /// of before, then a node for `name` and for each of `deps` that had
    /// none; `name` registered; and `name` depending on each of `deps`.
    pub open spec fn is_added(&self, before: &DependencyGraph, name: Seq<char>, deps: Seq<Seq<char>>) -> bool {
        &&& before.nodes().is_prefix_of(self.nodes())
        &&& forall|s: Seq<char>| #[trigger]
            self.contains(s) <==> before.contains(s) || s == name || deps.contains(s)
        &&& forall|s: Seq<char>| #[trigger]
            self.is_registered(s) <==> before.is_registered(s) || s == name
        &&& forall|x: Seq<char>, y: Seq<char>| #[trigger]
            self.depends_on(x, y) <==> before.depends_on(x, y) || (x == name && deps.contains(y))
        &&& self.dependency_total() == before.dependency_total() + deps.len()
        &&& before.node_count() <= self.node_count() <= before.node_count() + deps.len() + 1
    }

    /// The number of recorded dependencies in which `name` takes part, as
    /// the plugin that needs or as the one that is needed; one that was
    /// recorded twice counts twice.
    pub closed spec fn dependencies_touching(&self, name: Seq<char>) -> nat {
        if self.contains(name) {
            touching(graph_edges(self.graph), self.index_of(name)).len()
        } else {
            0
        }
    }

    /// Whether `self` is `before` without the plugin `name`: its node is
    /// gone, with every dependency from or to it, and with nothing else.
    pub open spec fn is_removed(&self, before: &DependencyGraph, name: Seq<char>) -> bool {
        &&& !before.contains(name) ==> self.nodes() == before.nodes()
        &&& before.contains(name) ==> self.node_count() + 1 == before.node_count()
        &&& self.dependency_total() + before.dependencies_touching(name) == before.dependency_total()
        &&& forall|s: Seq<char>| #[trigger] self.contains(s) <==> before.contains(s) && s != name
        &&& forall|s: Seq<char>| #[trigger]
            self.is_registered(s) <==> before.is_registered(s) && s != name
        &&& forall|x: Seq<char>, y: Seq<char>| #[trigger]
            self.depends_on(x, y) <==> before.depends_on(x, y) && x != name && y != name
    }

    /// Whether `plugin` depends on something that is not registered.
    pub open spec fn misses_something(&self, plugin: Seq<char>) -> bool {
        exists|s: Seq<char>| #[trigger] self.depends_on(plugin, s) && !self.is_registered(s)
    }

    /// Adds the plugin `plugin_name` with its dependencies: a node for the
    /// plugin, which is registered, a node for each dependency that has
    /// none yet, and one edge per dependency listed.
    pub fn add_plugin(&mut self, plugin_name: String, dependencies: Vec<String>) -> (r: Result<
        (),
        Error,
    >)
        requires
            old(self).wf(),
            old(self).node_count() + dependencies@.len() + 1 < u32::MAX,
            old(self).dependency_total() + dependencies@.len() < u32::MAX,
        ensures
            r is Ok,
            final(self).wf(),
            final(self).is_added(old(self), plugin_name@, names_of(dependencies@)),
    {
        let ghost name = plugin_name@;
        let ghost deps = names_of(dependencies@);
        let ghost old_n = self.names@.len() as int;
        let ghost old_edges = graph_edges(self.graph);
        let p = self.get_or_create_node(plugin_name, true);
        proof {
            if old(self).contains(name) {
                old(self).lemma_contained(name);
            }
        }
        let mut k: usize = 0;
        while k < dependencies.len()
            invariant
                self.wf(),
                k <= dependencies@.len(),
                deps == names_of(dependencies@),
                old_n == old(self).names@.len(),
                old(self).wf(),
                old_edges == graph_edges(old(self).graph),
                old_n + dependencies@.len() + 1 < u32::MAX,
                old_edges.len() + dependencies@.len() < u32::MAX,
                old_n <= self.names@.len() <= old_n + 1 + k,
                forall|i: int| 0 <= i < old_n ==> #[trigger] self.names@[i] == old(self).names@[i],
                p < self.names@.len(),
                self.names@[p as int]@ == name,
                old(self).contains(name) ==> p == old(self).index_of(name),
                !old(self).contains(name) ==> p == old_n,
                forall|i: int|
                    old_n <= i < self.names@.len() ==> (#[trigger] self.names@[i])@ == name || (
                    exists|j: int| 0 <= j < k && deps[j] == self.names@[i]@),
                forall|j: int| 0 <= j < k ==> self.contains(#[trigger] deps[j]),
                forall|i: int|
                    0 <= i < self.names@.len() ==> (#[trigger] self.registered@[i] == ((i < old_n
                        && old(self).registered@[i]) || i == p)),
                forall|a: int, b: int| #[trigger]
                    has_edge(graph_edges(self.graph), a, b) <==> has_edge(old_edges, a, b) || (b == p
                        && 0 <= a < self.names@.len() && exists|j: int|
                        0 <= j < k && deps[j] == self.names@[a]@),
                graph_edges(self.graph).len() == old_edges.len() + k,
            decreases dependencies@.len() - k,
        {
            let ghost before = *self;
            let dep = dependencies[k].clone();
            assert(dep@ == deps[k as int]);
            let d = self.get_or_create_node(dep, false);
            proof {
                if before.contains(dep@) {
                    before.lemma_contained(dep@);
                }
                assert forall|i: int| 0 <= i < self.names@.len() implies (#[trigger] self.registered@[i]
                    == ((i < old_n && old(self).registered@[i]) || i == p)) by {
                    if i < before.names@.len() {
                        assert(before.registered@[i] == ((i < old_n && old(self).registered@[i]) || i
                            == p));
                    }
                }
                assert forall|i: int| old_n <= i < self.names@.len() implies (
                #[trigger] self.names@[i])@ == name || (exists|j: int|
                    0 <= j < k + 1 && deps[j] == self.names@[i]@) by {
                    if i < before.names@.len() {
                        assert(self.names@[i] == before.names@[i]);
                        if before.names@[i]@ != name {
                            let j = choose|j: int| 0 <= j < k && deps[j] == before.names@[i]@;
                            assert(0 <= j < k + 1 && deps[j] == self.names@[i]@);
                        }
                    } else {
                        assert(deps[k as int] == self.names@[i]@);
                    }
                }
            }
            let ghost mid = *self;
            graph_add_edge(&mut self.graph, d, p);
            proof {
                assert(names_of(self.names@).contains(deps[k as int])) by {
                    assert(names_of(self.names@)[d as int] == self.names@[d as int]@);
                }
                assert forall|j: int| 0 <= j < k + 1 implies self.contains(#[trigger] deps[j]) by {
                    if j < k {
                        assert(before.contains(deps[j]));
                        before.lemma_contained(deps[j]);
                        let i = before.index_of(deps[j]);
                        assert(self.names@[i] == before.names@[i]);
                        assert(names_of(self.names@)[i] == self.names@[i]@);
                    }
                }
                assert forall|a: int, b: int| #[trigger]
                    has_edge(graph_edges(self.graph), a, b) <==> has_edge(old_edges, a, b) || (b == p
                        && 0 <= a < self.names@.len() && exists|j: int|
                        0 <= j < k + 1 && deps[j] == self.names@[a]@) by {
                    let prev = has_edge(graph_edges(mid.graph), a, b);
                    assert(prev <==> has_edge(old_edges, a, b) || (b == p && 0 <= a
                        < before.names@.len() && exists|j: int|
                        0 <= j < k && deps[j] == before.names@[a]@));
                    assert(has_edge(graph_edges(self.graph), a, b) <==> prev || (a == d && b == p));
                    if a == d && b == p {
                        assert(0 <= k < k + 1 && deps[k as int] == self.names@[a]@);
                    }
                    if b == p && 0 <= a < before.names@.len() && exists|j: int|
                        0 <= j < k && deps[j] == before.names@[a]@ {
                        let j = choose|j: int| 0 <= j < k && deps[j] == before.names@[a]@;
                        assert(self.names@[a] == before.names@[a]);
                        assert(0 <= j < k + 1 && deps[j] == self.names@[a]@);
                    }
                    if b == p && 0 <= a < self.names@.len() && exists|j: int|
                        0 <= j < k + 1 && deps[j] == self.names@[a]@ {
                        let j = choose|j: int| 0 <= j < k + 1 && deps[j] == self.names@[a]@;
                        if j == k {
                            mid.lemma_index(a);
                            mid.lemma_index(d as int);
                            assert(a == d);
                        } else {
                            assert(before.contains(deps[j]));
                            before.lemma_contained(deps[j]);
                            let i = before.index_of(deps[j]);
                            assert(mid.names@[i] == before.names@[i]);
                            mid.lemma_index(i);
                            mid.lemma_index(a);
                            assert(a == i);
                        }
                    }
                }
                assert(edges_within(graph_edges(self.graph), self.names@.len() as int)) by {
                    assert forall|a: int, b: int| #[trigger]
                        has_edge(graph_edges(self.graph), a, b) implies 0 <= a < self.names@.len() && 0
                        <= b < self.names@.len() by {
                        assert(has_edge(graph_edges(self.graph), a, b) <==> has_edge(
                            graph_edges(mid.graph),
                            a,
                            b,
                        ) || (a == d && b == p));
                    }
                }
            }
            k = k + 1;
        }
        proof {
            assert(old(self).nodes().is_prefix_of(self.nodes())) by {
                assert forall|i: int| 0 <= i < old_n implies old(self).nodes()[i] == self.nodes()[i] by {
                    assert(self.names@[i] == old(self).names@[i]);
                }
                assert(old(self).nodes() =~= self.nodes().subrange(0, old_n));
            }
            assert forall|s: Seq<char>| #[trigger]
                self.contains(s) <==> old(self).contains(s) || s == name || deps.contains(s) by {
                if self.contains(s) {
                    self.lemma_contained(s);
                    let i = self.index_of(s);
                    if i < old_n {
                        assert(self.names@[i] == old(self).names@[i]);
                        assert(old(self).nodes()[i] == s);
                    } else if s != name {
                        let j = choose|j: int| 0 <= j < k && deps[j] == self.names@[i]@;
                        assert(deps[j] == s);
                    }
                }
                if old(self).contains(s) {
                    old(self).lemma_contained(s);
                    let i = old(self).index_of(s);
                    assert(self.names@[i] == old(self).names@[i]);
                    assert(self.nodes()[i] == s);
                }
                if s == name {
                    assert(self.nodes()[p as int] == s);
                }
                if deps.contains(s) {
                    let j = choose|j: int| 0 <= j < deps.len() && deps[j] == s;
                    assert(self.contains(deps[j]));
                }
            }
            assert forall|s: Seq<char>| #[trigger]
                self.is_registered(s) <==> old(self).is_registered(s) || s == name by {
                if self.contains(s) {
                    self.lemma_contained(s);
                    let i = self.index_of(s);
                    self.lemma_index(p as int);
                    if i < old_n {
                        assert(self.names@[i] == old(self).names@[i]);
                        old(self).lemma_index(i);
                    } else {
                        if old(self).contains(s) {
                            old(self).lemma_contained(s);
                            let o = old(self).index_of(s);
                            assert(self.names@[o] == old(self).names@[o]);
                            self.lemma_index(o);
                        }
                    }
                }
                if old(self).is_registered(s) {
                    old(self).lemma_contained(s);
                    let o = old(self).index_of(s);
                    assert(self.names@[o] == old(self).names@[o]);
                    self.lemma_index(o);
                }
                if s == name {
                    self.lemma_index(p as int);
                }
            }
            assert forall|x: Seq<char>, y: Seq<char>| #[trigger]
                self.depends_on(x, y) <==> old(self).depends_on(x, y) || (x == name && deps.contains(
                    y,
                )) by {
                if self.depends_on(x, y) {
                    self.lemma_contained(x);
                    self.lemma_contained(y);
                    let a = self.index_of(y);
                    let b = self.index_of(x);
                    if has_edge(old_edges, a, b) {
                        assert(self.names@[a] == old(self).names@[a]);
                        assert(self.names@[b] == old(self).names@[b]);
                        old(self).lemma_index(a);
                        old(self).lemma_index(b);
                    } else {
                        let j = choose|j: int| 0 <= j < k && deps[j] == self.names@[a]@;
                        assert(deps[j] == y);
                    }
                }
                if old(self).depends_on(x, y) {
                    old(self).lemma_contained(x);
                    old(self).lemma_contained(y);
                    let a = old(self).index_of(y);
                    let b = old(self).index_of(x);
                    assert(self.names@[a] == old(self).names@[a]);
                    assert(self.names@[b] == old(self).names@[b]);
                    self.lemma_index(a);
                    self.lemma_index(b);
                    assert(has_edge(graph_edges(self.graph), a, b));
                }
                if x == name && deps.contains(y) {
                    let j = choose|j: int| 0 <= j < deps.len() && deps[j] == y;
                    assert(self.contains(deps[j]));
                    self.lemma_contained(y);
                    let a = self.index_of(y);
                    self.lemma_index(p as int);
                    assert(0 <= j < k && deps[j] == self.names@[a]@);
                    assert(has_edge(graph_edges(self.graph), a, p as int));
                }
            }
        }
        Ok(())
    }

    /// Removes the node of `plugin_name` with every dependency from or to
    /// it. A name that is no node changes nothing.
    pub fn remove_plugin(&mut self, plugin_name: &str)
        requires
            old(self).wf(),
        ensures
            final(self).wf(),
            final(self).is_removed(old(self), plugin_name@),
    {
        let ghost name = plugin_name@;
        match self.find_node(plugin_name) {
            None => {
                proof {
                    assert forall|x: Seq<char>, y: Seq<char>| #[trigger]
                        self.depends_on(x, y) implies x != name && y != name by {}
                    assert forall|s: Seq<char>| #[trigger] self.is_registered(s) implies s != name by {}
                }
            },
            Some(a) => {
                let ghost n = self.names@.len() as int;
                proof {
                    old(self).lemma_index(a as int);
                }
                let _ = graph_remove_node(&mut self.graph, a);
                proof {
                    lemma_edges_without_len(
                        graph_edges(old(self).graph),
                        graph_edges(self.graph),
                        a as int,
                        n,
                    );
                }
                let _ = self.names.swap_remove(a);
                let _ = self.registered.swap_remove(a);
                proof {
                    let before = |i: int| index_before_removal(i, a as int, n);
                    assert(self.names@.len() == n - 1);
                    assert forall|i: int| 0 <= i < n - 1 implies #[trigger] self.names@[i] == old(self).names@[before(i)] && self.registered@[i] == old(self).registered@[before(i)]
                        && 0 <= before(i) < n && before(i) != a by {}
                    assert(graph_nodes(self.graph) =~= names_of(self.names@)) by {
                        assert(names_of(old(self).names@).last() == old(self).names@.last()@);
                    }
                    assert forall|i: int, j: int| 0 <= i < j < n - 1 implies names_of(self.names@)[i]
                        != names_of(self.names@)[j] by {
                        let oi = before(i);
                        let oj = before(j);
                        assert(self.names@[i] == old(self).names@[oi]);
                        assert(self.names@[j] == old(self).names@[oj]);
                        assert(names_of(old(self).names@)[oi] == old(self).names@[oi]@);
                        assert(names_of(old(self).names@)[oj] == old(self).names@[oj]@);
                        if oi < oj {
                            assert(names_of(old(self).names@)[oi] != names_of(old(self).names@)[oj]);
                        } else {
                            assert(names_of(old(self).names@)[oj] != names_of(old(self).names@)[oi]);
                        }
                    }
                    assert forall|x: int, y: int| #[trigger]
                        has_edge(graph_edges(self.graph), x, y) implies 0 <= x < n - 1 && 0 <= y < n
                        - 1 by {
                        assert(graph_edges(self.graph).count((x, y)) > 0);
                    }
                    assert(self.wf());
                    assert forall|x: int, y: int| 0 <= x < n - 1 && 0 <= y < n - 1 implies (has_edge(
                        graph_edges(self.graph),
                        x,
                        y,
                    ) <==> has_edge(graph_edges(old(self).graph), before(x), before(y))) by {
                        assert(graph_edges(self.graph).count((x, y)) == graph_edges(
                            old(self).graph,
                        ).count((before(x), before(y))));
                    }
                    // Every old node but the removed one has a place in the new graph.
                    assert forall|o: int| 0 <= o < n && o != a implies self.contains(
                        #[trigger] old(self).names@[o]@,
                    ) && before(self.index_of(old(self).names@[o]@)) == o by {
                        let i = if o == n - 1 {
                            a as int
                        } else {
                            o
                        };
                        assert(self.names@[i] == old(self).names@[before(i)]);
                        self.lemma_index(i);
                    }
                    old(self).lemma_index(a as int);
                    assert forall|s: Seq<char>| #[trigger]
                        self.contains(s) <==> old(self).contains(s) && s != name by {
                        if self.contains(s) {
                            self.lemma_contained(s);
                            let i = self.index_of(s);
                            assert(self.names@[i] == old(self).names@[before(i)]);
                            old(self).lemma_index(before(i));
                        }
                        if old(self).contains(s) && s != name {
                            old(self).lemma_contained(s);
                            let o = old(self).index_of(s);
                            assert(self.contains(old(self).names@[o]@));
                        }
                    }
                    assert forall|s: Seq<char>| #[trigger]
                        self.is_registered(s) <==> old(self).is_registered(s) && s != name by {
                        if self.contains(s) {
                            self.lemma_contained(s);
                            let i = self.index_of(s);
                            assert(self.names@[i] == old(self).names@[before(i)]);
                            old(self).lemma_index(before(i));
                        }
                        if old(self).contains(s) && s != name {
                            old(self).lemma_contained(s);
                            let o = old(self).index_of(s);
                            assert(self.contains(old(self).names@[o]@));
                            let i = self.index_of(s);
                            self.lemma_contained(s);
                            assert(self.names@[i] == old(self).names@[before(i)]);
                        }
                    }
                    assert forall|x: Seq<char>, y: Seq<char>| #[trigger]
                        self.depends_on(x, y) <==> old(self).depends_on(x, y) && x != name && y
                            != name by {
                        if self.contains(x) && self.contains(y) {
                            self.lemma_contained(x);
                            self.lemma_contained(y);
                            let ix = self.index_of(x);
                            let iy = self.index_of(y);
                            assert(self.names@[ix] == old(self).names@[before(ix)]);
                            assert(self.names@[iy] == old(self).names@[before(iy)]);
                            old(self).lemma_index(before(ix));
                            old(self).lemma_index(before(iy));
                        }
                        if old(self).contains(x) && old(self).contains(y) && x != name && y != name {
                            old(self).lemma_contained(x);
                            old(self).lemma_contained(y);
                            let ox = old(self).index_of(x);
                            let oy = old(self).index_of(y);
                            assert(self.contains(old(self).names@[ox]@));
                            assert(self.contains(old(self).names@[oy]@));
                        }
                    }
                }
            },
        }
    }

    /// The nodes that can be reached from `start` along the edges, `start`
    /// first and then in the order in which a breadth-first search finds them.
    fn reachable_from(&self, start: usize) -> (r: Vec<usize>)
        requires
            self.wf(),
            start < self.names@.len(),
        ensures
            r@.len() >= 1,
            r@[0] == start,
            forall|i: int| 0 <= i < r@.len() ==> #[trigger] r@[i] < self.names@.len(),
            forall|i: int, j: int| 0 <= i < j < r@.len() ==> r@[i] != r@[j],
            forall|x: int|
                0 <= x < self.names@.len() ==> (#[trigger] ints_of(r@).contains(x) <==> reaches(
                    graph_edges(self.graph),
                    start as int,
                    x,
                )),
    {
        let n: usize = self.names.len();
        let ghost edges = graph_edges(self.graph);
        let mut visited: Vec<bool> = Vec::new();
        let mut c: usize = 0;
        while c < n
            invariant
                c <= n,
                visited@.len() == c,
                forall|i: int| 0 <= i < c ==> !visited@[i],
            decreases n - c,
        {
            visited.push(false);
            c = c + 1;
        }
        let mut queue: Vec<usize> = Vec::new();
        proof {
            lemma_count_true_none(visited@);
            lemma_count_true_set(visited@, start as int);
            lemma_reach_self(edges, start as int);
        }
        visited.set(start, true);
        queue.push(start);
        proof {
            assert forall|x: int| 0 <= x < n implies (#[trigger] visited@[x] <==> exists|i: int|
                0 <= i < queue@.len() && queue@[i] == x) by {
                if x == start {
                    assert(queue@[0] == x);
                }
            }
        }
        let mut head: usize = 0;
        while head < queue.len()
            invariant
                self.wf(),
                n == self.names@.len(),
                edges == graph_edges(self.graph),
                start < n,
                visited@.len() == n,
                head <= queue@.len(),
                queue@.len() >= 1,
                queue@[0] == start,
                queue@.len() == count_true(visited@),
                forall|i: int| 0 <= i < queue@.len() ==> #[trigger] queue@[i] < n,
                forall|i: int, j: int| 0 <= i < j < queue@.len() ==> queue@[i] != queue@[j],
                forall|x: int|
                    0 <= x < n ==> (#[trigger] visited@[x] <==> exists|i: int|
                        0 <= i < queue@.len() && queue@[i] == x),
                forall|i: int| 0 <= i < queue@.len() ==> reaches(edges, start as int, #[trigger] queue@[i] as int),
                forall|i: int, w: int|
                    0 <= i < head && #[trigger] has_edge(edges, queue@[i] as int, w) ==> 0 <= w < n
                        && visited@[w],
            decreases n - head,
        {
            proof {
                lemma_count_true_bound(visited@);
            }
            let v: usize = queue[head];
            let near = graph_neighbors(&self.graph, v, Direction::Outgoing);
            let mut t: usize = 0;
            while t < near.len()
                invariant
                    self.wf(),
                    n == self.names@.len(),
                    edges == graph_edges(self.graph),
                    start < n,
                    visited@.len() == n,
                    head < queue@.len(),
                    v == queue@[head as int],
                    queue@.len() >= 1,
                    queue@[0] == start,
                    queue@.len() == count_true(visited@),
                    t <= near@.len(),
                    forall|i: int| 0 <= i < near@.len() ==> #[trigger] near@[i] < n,
                    forall|x: int| #[trigger]
                        ints_of(near@).contains(x) <==> has_edge(edges, v as int, x),
                    forall|i: int| 0 <= i < queue@.len() ==> #[trigger] queue@[i] < n,
                    forall|i: int, j: int| 0 <= i < j < queue@.len() ==> queue@[i] != queue@[j],
                    forall|x: int|
                        0 <= x < n ==> (#[trigger] visited@[x] <==> exists|i: int|
                            0 <= i < queue@.len() && queue@[i] == x),
                    forall|i: int|
                        0 <= i < queue@.len() ==> reaches(edges, start as int, #[trigger] queue@[i] as int),
                    forall|i: int, w: int|
                        0 <= i < head && #[trigger] has_edge(edges, queue@[i] as int, w) ==> 0 <= w < n
                            && visited@[w],
                    forall|i: int| 0 <= i < t ==> visited@[#[trigger] near@[i] as int],
                decreases near@.len() - t,
            {
                let w: usize = near[t];
                proof {
                    lemma_ints_contains(near@, w as int);
                    assert(has_edge(edges, v as int, w as int));
                }
                if !visited[w] {
                    proof {
                        lemma_count_true_set(visited@, w as int);
                        lemma_reach_step(edges, start as int, v as int, w as int);
                    }
                    let ghost old_queue = queue@;
                    let ghost old_visited = visited@;
                    visited.set(w, true);
                    queue.push(w);
                    proof {
                        assert forall|x: int| 0 <= x < n implies (#[trigger] visited@[x] <==> exists|
                            i: int,
                        | 0 <= i < queue@.len() && queue@[i] == x) by {
                            if x == w {
                                assert(queue@[old_queue.len() as int] == x);
                            } else {
                                if old_visited[x] {
                                    let i = choose|i: int| 0 <= i < old_queue.len() && old_queue[i] == x;
                                    assert(queue@[i] == x);
                                }
                                if exists|i: int| 0 <= i < queue@.len() && queue@[i] == x {
                                    let i = choose|i: int| 0 <= i < queue@.len() && queue@[i] == x;
                                    assert(i < old_queue.len());
                                    assert(old_queue[i] == x);
                                }
                            }
                        }
                        assert forall|i: int, j: int| 0 <= i < j < queue@.len() implies queue@[i]
                            != queue@[j] by {
                            if j == old_queue.len() {
                                assert(old_queue[i] == queue@[i]);
                                if queue@[i] == w {
                                    assert(old_visited[w as int]);
                                }
                            }
                        }
                    }
                }
                t = t + 1;
            }
            proof {
                assert forall|i: int, w: int|
                    0 <= i < head + 1 && #[trigger] has_edge(edges, queue@[i] as int, w) implies 0 <= w
                    < n && visited@[w] by {
                    if i == head {
                        assert(ints_of(near@).contains(w));
                        lemma_ints_contains(near@, w);
                        let t0 = choose|t0: int| 0 <= t0 < near@.len() && #[trigger] near@[t0] == w;
                        assert(visited@[near@[t0] as int]);
                    }
                }
                lemma_count_true_bound(visited@);
            }
            head = head + 1;
        }
        proof {
            let inside = Set::new(|x: int| 0 <= x < n && visited@[x]);
            assert forall|a: int, b: int| inside.contains(a) && #[trigger] has_edge(edges, a, b) implies inside.contains(
                b,
            ) by {
                let i = choose|i: int| 0 <= i < queue@.len() && queue@[i] == a;
                assert(has_edge(edges, queue@[i] as int, b));
            }
            assert forall|x: int| 0 <= x < n implies (#[trigger] ints_of(queue@).contains(x) <==> reaches(
                edges,
                start as int,
                x,
            )) by {
                lemma_ints_contains(queue@, x);
                if reaches(edges, start as int, x) {
                    let walk = choose|walk: Seq<int>|
                        is_walk(edges, walk) && walk.first() == start as int && walk.last() == x;
                    assert(queue@[0] == start);
                    assert(visited@[start as int]);
                    lemma_walk_stays(edges, inside, walk, walk.len() - 1);
                    assert(visited@[x]);
                }
                if ints_of(queue@).contains(x) {
                    let i = choose|i: int| 0 <= i < queue@.len() && #[trigger] queue@[i] == x;
                    assert(reaches(edges, start as int, queue@[i] as int));
                }
            }
        }
        queue
    }

    /// The names along a walk form a chain of dependencies.
    proof fn lemma_walk_to_chain(&self, walk: Seq<int>) -> (chain: Seq<Seq<char>>)
        requires
            self.wf(),
            is_walk(graph_edges(self.graph), walk),
            walk.len() >= 2 || 0 <= walk.first() < self.names@.len(),
        ensures
            self.is_chain(chain),
            chain.len() == walk.len(),
            forall|i: int|
                0 <= i < walk.len() ==> 0 <= walk[i] < self.names@.len() && #[trigger] chain[i]
                    == self.names@[walk[i]]@,
    {
        let edges = graph_edges(self.graph);
        let n = self.names@.len() as int;
        assert forall|i: int| 0 <= i < walk.len() implies 0 <= #[trigger] walk[i] < n by {
            lemma_walk_within(edges, n, walk, i);
        }
        let chain = Seq::new(walk.len(), |i: int| self.names@[walk[i]]@);
        assert forall|i: int| 0 <= i < chain.len() - 1 implies #[trigger] self.link_ok(chain, i) by {
            assert(step_ok(edges, walk, i));
            assert(0 <= walk[i] < n && 0 <= walk[i + 1] < n);
            self.lemma_index(walk[i]);
            self.lemma_index(walk[i + 1]);
        }
        chain
    }

    /// The nodes of a chain of dependencies form a walk.
    proof fn lemma_chain_to_walk(&self, chain: Seq<Seq<char>>) -> (walk: Seq<int>)
        requires
            self.wf(),
            self.is_chain(chain),
            chain.len() >= 2 || self.contains(chain.first()),
        ensures
            is_walk(graph_edges(self.graph), walk),
            walk.len() == chain.len(),
            forall|i: int|
                0 <= i < chain.len() ==> self.contains(chain[i]) && #[trigger] walk[i] == self.index_of(
                    chain[i],
                ) && 0 <= walk[i] < self.names@.len() && self.names@[walk[i]]@ == chain[i],
    {
        let edges = graph_edges(self.graph);
        assert forall|i: int| 0 <= i < chain.len() implies self.contains(#[trigger] chain[i]) by {
            if chain.len() >= 2 {
                if i < chain.len() - 1 {
                    assert(self.link_ok(chain, i));
                } else {
                    assert(self.link_ok(chain, i - 1));
                }
            }
        }
        let walk = Seq::new(chain.len(), |i: int| self.index_of(chain[i]));
        assert forall|i: int| 0 <= i < chain.len() implies 0 <= #[trigger] walk[i] < self.names@.len()
            && self.names@[walk[i]]@ == chain[i] by {
            self.lemma_contained(chain[i]);
        }
        assert forall|i: int| 0 <= i < walk.len() - 1 implies #[trigger] step_ok(edges, walk, i) by {
            assert(self.link_ok(chain, i));
        }
        walk
    }

    /// Node `a` reaches node `b` just when the plugin at `b` needs the plugin at `a`.
    proof fn lemma_reaches_is_needs(&self, a: int, b: int)
        requires
            self.wf(),
            0 <= a < self.names@.len(),
            0 <= b < self.names@.len(),
        ensures
            reaches(graph_edges(self.graph), a, b) <==> self.needs(self.names@[b]@, self.names@[a]@),
    {
        let edges = graph_edges(self.graph);
        if reaches(edges, a, b) {
            let walk = choose|walk: Seq<int>| is_walk(edges, walk) && walk.first() == a && walk.last() == b;
            let chain = self.lemma_walk_to_chain(walk);
            assert(chain.first() == self.names@[a]@ && chain.last() == self.names@[b]@);
        }
        if self.needs(self.names@[b]@, self.names@[a]@) {
            let chain = choose|chain: Seq<Seq<char>>|
                self.is_chain(chain) && chain.first() == self.names@[a]@ && chain.last()
                    == self.names@[b]@;
            self.lemma_index(a);
            self.lemma_index(b);
            let walk = self.lemma_chain_to_walk(chain);
            assert(walk.first() == a && walk.last() == b);
        }
    }

    /// A dependency is recorded between nodes only, and only nodes are registered.
    pub proof fn lemma_recorded_of_nodes(&self, dependent: Seq<char>, dependency: Seq<char>)
        ensures
            self.depends_on(dependent, dependency) ==> self.contains(dependent) && self.contains(
                dependency,
            ),
            self.is_registered(dependent) ==> self.contains(dependent),
    {
    }

    /// The dependencies in which a plugin takes part are among all that are
    /// recorded, and there is one just when the plugin depends on
    /// something or something depends on it.
    pub proof fn lemma_dependencies_touching(&self, name: Seq<char>)
        requires
            self.wf(),
        ensures
            self.dependencies_touching(name) <= self.dependency_total(),
            self.dependencies_touching(name) > 0 <==> exists|other: Seq<char>|
                #![trigger self.depends_on(name, other)]
                #![trigger self.depends_on(other, name)]
                self.depends_on(name, other) || self.depends_on(other, name),
    {
        let edges = graph_edges(self.graph);
        if self.contains(name) {
            self.lemma_contained(name);
            let a = self.index_of(name);
            let part = touching(edges, a);
            assert(part.len() <= edges.len()) by {
                assert(part.subset_of(edges));
                vstd::multiset::axiom_len_sub(edges, part);
            }
            if part.len() > 0 {
                vstd::multiset::lemma_multiset_empty_len(part);
                let e = choose|e: (int, int)| 0 < part.count(e);
                assert(has_edge(edges, e.0, e.1));
                self.lemma_index(e.0);
                self.lemma_index(e.1);
                if e.0 == a {
                    assert(self.depends_on(self.names@[e.1]@, name));
                } else {
                    assert(self.depends_on(name, self.names@[e.0]@));
                }
            }
            if exists|other: Seq<char>|
                #![trigger self.depends_on(name, other)]
                #![trigger self.depends_on(other, name)]
                self.depends_on(name, other) || self.depends_on(other, name) {
                let other = choose|other: Seq<char>|
                    #![trigger self.depends_on(name, other)]
                    #![trigger self.depends_on(other, name)]
                    self.depends_on(name, other) || self.depends_on(other, name);
                let b = self.index_of(other);
                let e = if self.depends_on(name, other) {
                    (b, a)
                } else {
                    (a, b)
                };
                assert(edges.count(e) > 0);
                assert(part.count(e) > 0);
                vstd::multiset::axiom_count_le_len(part, e);
            }
        }
    }

    /// A plugin that needs another one, or is needed by it, is a node, and so is the other.
    pub proof fn lemma_needs_nodes(&self, dependent: Seq<char>, dependency: Seq<char>)
        requires
            self.wf(),
            self.needs(dependent, dependency),
            dependent != dependency,
        ensures
            self.contains(dependent),
            self.contains(dependency),
    {
        let chain = choose|chain: Seq<Seq<char>>|
            self.is_chain(chain) && chain.first() == dependency && chain.last() == dependent;
        assert(chain.len() >= 2);
        let walk = self.lemma_chain_to_walk(chain);
        assert(walk[0] == self.index_of(chain[0]));
        assert(walk[chain.len() - 1] == self.index_of(chain[chain.len() - 1]));
    }

    /// The names of the nodes `indices[from..]`, in order.
    fn names_at(&self, indices: &Vec<usize>, from: usize) -> (r: Vec<String>)
        requires
            from <= indices@.len(),
            forall|i: int| 0 <= i < indices@.len() ==> #[trigger] indices@[i] < self.names@.len(),
        ensures
            r@.len() == indices@.len() - from,
            forall|i: int| 0 <= i < r@.len() ==> #[trigger] r@[i]@ == self.names@[indices@[from + i] as int]@,
    {
        let mut out: Vec<String> = Vec::new();
        let mut i: usize = from;
        while i < indices.len()
            invariant
                from <= i <= indices@.len(),
                forall|k: int| 0 <= k < indices@.len() ==> #[trigger] indices@[k] < self.names@.len(),
                out@.len() == i - from,
                forall|k: int|
                    0 <= k < out@.len() ==> #[trigger] out@[k]@ == self.names@[indices@[from + k] as int]@,
            decreases indices@.len() - i,
        {
            out.push(self.names[indices[i]].clone());
            i = i + 1;
        }
        out
    }

    /// The dependencies of `plugin_name` that are not registered: named by
    /// the plugin, but never added as plugins themselves. Each is listed once.
    pub fn check_missing_dependencies(&self, plugin_name: &str) -> (r: Vec<String>)
        requires
            self.wf(),
        ensures
            distinct(names_of(r@)),
            forall|s: Seq<char>| #[trigger]
                names_of(r@).contains(s) <==> self.depends_on(plugin_name@, s) && !self.is_registered(
                    s,
                ),
    {
        let mut missing: Vec<String> = Vec::new();
        let ghost edges = graph_edges(self.graph);
        match self.find_node(plugin_name) {
            None => {
                assert forall|s: Seq<char>| #[trigger] names_of(missing@).contains(s) implies false by {
                    let i = choose|i: int| 0 <= i < names_of(missing@).len() && names_of(missing@)[i] == s;
                }
            },
            Some(p) => {
                let near = graph_neighbors(&self.graph, p, Direction::Incoming);
                let ghost mut from: Seq<int> = Seq::empty();
                let mut t: usize = 0;
                while t < near.len()
                    invariant
                        self.wf(),
                        edges == graph_edges(self.graph),
                        p < self.names@.len(),
                        t <= near@.len(),
                        forall|i: int| 0 <= i < near@.len() ==> #[trigger] near@[i] < self.names@.len(),
                        from.len() == missing@.len(),
                        forall|i: int|
                            0 <= i < from.len() ==> 0 <= #[trigger] from[i] < self.names@.len()
                                && !self.registered@[from[i]] && ints_of(near@).contains(from[i])
                                && missing@[i]@ == self.names@[from[i]]@,
                        forall|i: int, j: int| 0 <= i < j < from.len() ==> from[i] != from[j],
                        forall|u: int|
                            0 <= u < t && !self.registered@[#[trigger] near@[u] as int] ==> from.contains(
                                near@[u] as int,
                            ),
                    decreases near@.len() - t,
                {
                    let d: usize = near[t];
                    let listed = list_contains(missing.as_slice(), self.names[d].as_str());
                    proof {
                        if listed {
                            let i = choose|i: int|
                                0 <= i < names_of(missing@).len() && names_of(missing@)[i]
                                    == self.names@[d as int]@;
                            assert(missing@[i]@ == self.names@[from[i]]@);
                            self.lemma_index(from[i]);
                            self.lemma_index(d as int);
                            assert(from[i] == d);
                        } else {
                            assert forall|i: int| 0 <= i < from.len() implies from[i] != d by {
                                assert(names_of(missing@)[i] == missing@[i]@);
                                assert(names_of(missing@).contains(names_of(missing@)[i]));
                            }
                        }
                    }
                    if !self.registered[d] && !listed {
                        let ghost before = from;
                        missing.push(self.names[d].clone());
                        proof {
                            from = from.push(d as int);
                            lemma_ints_contains(near@, d as int);
                            assert forall|u: int|
                                0 <= u < t + 1 && !self.registered@[#[trigger] near@[u] as int] implies from.contains(
                                near@[u] as int,
                            ) by {
                                if u < t {
                                    let i = choose|i: int|
                                        0 <= i < before.len() && before[i] == near@[u] as int;
                                    assert(from[i] == near@[u] as int);
                                } else {
                                    assert(from[before.len() as int] == d as int);
                                }
                            }
                        }
                    }
                    t = t + 1;
                }
                proof {
                    self.lemma_index(p as int);
                    assert forall|i: int, j: int| 0 <= i < j < missing@.len() implies names_of(
                        missing@,
                    )[i] != names_of(missing@)[j] by {
                        assert(missing@[i]@ == self.names@[from[i]]@);
                        assert(missing@[j]@ == self.names@[from[j]]@);
                        assert(from[i] != from[j]);
                        self.lemma_index(from[i]);
                        self.lemma_index(from[j]);
                    }
                    assert forall|s: Seq<char>| #[trigger]
                        names_of(missing@).contains(s) <==> self.depends_on(plugin_name@, s)
                            && !self.is_registered(s) by {
                        if names_of(missing@).contains(s) {
                            let i = choose|i: int|
                                0 <= i < names_of(missing@).len() && names_of(missing@)[i] == s;
                            assert(missing@[i]@ == s);
                            assert(ints_of(near@).contains(from[i]));
                            self.lemma_index(from[i]);
                        }
                        if self.depends_on(plugin_name@, s) && !self.is_registered(s) {
                            self.lemma_contained(s);
                            let d = self.index_of(s);
                            assert(has_edge(edges, d, p as int));
                            assert(ints_of(near@).contains(d));
                            lemma_ints_contains(near@, d);
                            let u = choose|u: int| 0 <= u < near@.len() && #[trigger] near@[u] == d;
                            assert(!self.registered@[near@[u] as int]);
                            assert(from.contains(d));
                            let i = choose|i: int| 0 <= i < from.len() && from[i] == d;
                            assert(missing@[i]@ == self.names@[from[i]]@);
                            assert(names_of(missing@)[i] == s);
                        }
                    }
                }
            },
        }
        missing
    }

    /// Every plugin that needs `plugin_name`, directly or through others,
    /// each once. The plugin itself is left out.
    pub fn get_all_dependents(&self, plugin_name: &str) -> (r: Vec<String>)
        requires
            self.wf(),
        ensures
            distinct(names_of(r@)),
            forall|s: Seq<char>| #[trigger]
                names_of(r@).contains(s) <==> s != plugin_name@ && self.needs(s, plugin_name@),
    {
        match self.find_node(plugin_name) {
            None => {
                let out: Vec<String> = Vec::new();
                proof {
                    assert forall|s: Seq<char>| #[trigger]
                        names_of(out@).contains(s) <==> s != plugin_name@ && self.needs(
                            s,
                            plugin_name@,
                        ) by {
                        if s != plugin_name@ && self.needs(s, plugin_name@) {
                            self.lemma_needs_nodes(s, plugin_name@);
                        }
                        if names_of(out@).contains(s) {
                            let i = choose|i: int| 0 <= i < names_of(out@).len() && names_of(out@)[i] == s;
                        }
                    }
                }
                out
            },
            Some(p) => {
                let found = self.reachable_from(p);
                let out = self.names_at(&found, 1);
                proof {
                    self.lemma_listed(found@, p as int, out@, true);
                }
                out
            },
        }
    }

    /// Every plugin that `plugin_name` needs, directly or through others,
    /// each once. The plugin itself is left out.
    pub fn get_all_dependencies(&self, plugin_name: &str) -> (r: Vec<String>)
        requires
            self.wf(),
        ensures
            distinct(names_of(r@)),
            forall|s: Seq<char>| #[trigger]
                names_of(r@).contains(s) <==> s != plugin_name@ && self.needs(plugin_name@, s),
    {
        match self.find_node(plugin_name) {
            None => {
                let out: Vec<String> = Vec::new();
                proof {
                    assert forall|s: Seq<char>| #[trigger]
                        names_of(out@).contains(s) <==> s != plugin_name@ && self.needs(
                            plugin_name@,
                            s,
                        ) by {
                        if s != plugin_name@ && self.needs(plugin_name@, s) {
                            self.lemma_needs_nodes(plugin_name@, s);
                        }
                        if names_of(out@).contains(s) {
                            let i = choose|i: int| 0 <= i < names_of(out@).len() && names_of(out@)[i] == s;
                        }
                    }
                }
                out
            },
            Some(p) => {
                let found = graph_walk_against(&self.graph, p);
                let out = self.names_at(&found, 1);
                proof {
                    self.lemma_listed(found@, p as int, out@, false);
                }
                out
            },
        }
    }

    /// The names of what a search from node `p` found, without `p` itself,
    /// are the names of the plugins on the far side of `p`, each once.
    proof fn lemma_listed(&self, found: Seq<usize>, p: int, out: Seq<String>, forward: bool)
        requires
            self.wf(),
            0 <= p < self.names@.len(),
            found.len() >= 1,
            found[0] == p,
            forall|i: int| 0 <= i < found.len() ==> #[trigger] found[i] < self.names@.len(),
            forall|i: int, j: int| 0 <= i < j < found.len() ==> found[i] != found[j],
            forall|x: int|
                0 <= x < self.names@.len() ==> (#[trigger] ints_of(found).contains(x) <==> if forward {
                    reaches(graph_edges(self.graph), p, x)
                } else {
                    reaches(graph_edges(self.graph), x, p)
                }),
            out.len() == found.len() - 1,
            forall|i: int| 0 <= i < out.len() ==> #[trigger] out[i]@ == self.names@[found[1 + i] as int]@,
        ensures
            distinct(names_of(out)),
            forall|s: Seq<char>| #[trigger]
                names_of(out).contains(s) <==> s != self.names@[p]@ && if forward {
                    self.needs(s, self.names@[p]@)
                } else {
                    self.needs(self.names@[p]@, s)
                },
    {
        let name = self.names@[p]@;
        self.lemma_index(p);
        assert forall|i: int, j: int| 0 <= i < j < out.len() implies names_of(out)[i] != names_of(
            out,
        )[j] by {
            assert(out[i]@ == self.names@[found[1 + i] as int]@);
            assert(out[j]@ == self.names@[found[1 + j] as int]@);
            assert(found[1 + i] != found[1 + j]);
            self.lemma_index(found[1 + i] as int);
            self.lemma_index(found[1 + j] as int);
        }
        assert forall|s: Seq<char>| #[trigger]
            names_of(out).contains(s) <==> s != name && if forward {
                self.needs(s, name)
            } else {
                self.needs(name, s)
            } by {
            if names_of(out).contains(s) {
                let i = choose|i: int| 0 <= i < names_of(out).len() && names_of(out)[i] == s;
                assert(out[i]@ == self.names@[found[1 + i] as int]@);
                let x = found[1 + i] as int;
                assert(found[0] != found[1 + i]);
                self.lemma_index(x);
                lemma_ints_contains(found, x);
                assert(ints_of(found).contains(x));
                if forward {
                    self.lemma_reaches_is_needs(p, x);
                } else {
                    self.lemma_reaches_is_needs(x, p);
                }
            }
            if s != name && if forward {
                self.needs(s, name)
            } else {
                self.needs(name, s)
            } {
                if forward {
                    self.lemma_needs_nodes(s, name);
                } else {
                    self.lemma_needs_nodes(name, s);
                }
                self.lemma_contained(s);
                let x = self.index_of(s);
                if forward {
                    self.lemma_reaches_is_needs(p, x);
                } else {
                    self.lemma_reaches_is_needs(x, p);
                }
                assert(ints_of(found).contains(x));
                lemma_ints_contains(found, x);
                let k = choose|k: int| 0 <= k < found.len() && #[trigger] found[k] == x;
                assert(k != 0);
                assert(out[k - 1]@ == self.names@[found[1 + (k - 1)] as int]@);
                assert(names_of(out)[k - 1] == s);
            }
        }
    }

    /// Whether `plugin_name` can be unloaded without breaking another
    /// plugin: no other plugin needs it, directly or through others.
    pub fn can_unload_safely(&self, plugin_name: &str) -> (r: bool)
        requires
            self.wf(),
        ensures
            r <==> forall|s: Seq<char>| #[trigger] self.needs(s, plugin_name@) ==> s == plugin_name@,
    {
        let dependents = self.get_all_dependents(plugin_name);
        proof {
            if dependents@.len() > 0 {
                assert(names_of(dependents@).contains(names_of(dependents@)[0]));
            } else {
                assert forall|s: Seq<char>| #[trigger] self.needs(s, plugin_name@) implies s
                    == plugin_name@ by {
                    if s != plugin_name@ {
                        assert(names_of(dependents@).contains(s));
                        let i = choose|i: int|
                            0 <= i < names_of(dependents@).len() && names_of(dependents@)[i] == s;
                    }
                }
            }
        }
        dependents.len() == 0
    }

    /// The names of the nodes `part`.
    pub closed spec fn names_along(&self, part: Seq<int>) -> Seq<Seq<char>> {
        part.map_values(|i: int| self.names@[i]@)
    }

    /// The strongly connected components of the graph, by name.
    pub closed spec fn components(&self) -> Seq<Seq<Seq<char>>> {
        components_of(self.graph).map_values(|part: Seq<int>| self.names_along(part))
    }

    /// The groups of plugins that depend on each other in a circle: the
    /// components that hold more than one plugin.
    pub open spec fn cyclic_groups(&self) -> Seq<Seq<Seq<char>>> {
        groups_with_several(self.components())
    }

    /// The plugins in load order: every plugin after all that it needs.
    /// Empty where the dependencies are circular.
    pub closed spec fn load_order(&self) -> Seq<Seq<char>> {
        match toposort_of(self.graph) {
            Ok(order) => self.names_along(order),
            Err(_) => Seq::empty(),
        }
    }

    /// A plugin on a cycle, named where the plugins cannot be ordered.
    pub closed spec fn cycle_member(&self) -> Seq<char> {
        match toposort_of(self.graph) {
            Ok(_) => Seq::empty(),
            Err(node) => self.names@[node]@,
        }
    }

    /// Whether `order` lists every node once, each plugin after its dependencies.
    pub open spec fn is_load_order(&self, order: Seq<Seq<char>>) -> bool {
        &&& distinct(order)
        &&& forall|s: Seq<char>| #[trigger] order.contains(s) <==> self.contains(s)
        &&& forall|i: int, j: int|
            0 <= i < order.len() && 0 <= j < order.len() && #[trigger] self.depends_on(
                order[j],
                order[i],
            ) ==> i < j
    }

    /// Whether `name` needs itself through a chain of at least one dependency.
    pub open spec fn needs_itself(&self, name: Seq<char>) -> bool {
        exists|chain: Seq<Seq<char>>|
            self.is_chain(chain) && chain.len() >= 2 && chain.first() == name && chain.last() == name
    }

    /// Whether `e` is the error that reports why the plugins cannot be
    /// ordered: the circular groups where there are any, else one plugin
    /// that depends on itself.
    pub open spec fn is_order_error(&self, e: Error) -> bool {
        e matches Error::Dependency(m) && if self.has_mutual_dependency() {
            m@ == circular_text(self.cyclic_groups())
        } else {
            m@ == "Cycle detected involving plugin: "@ + self.cycle_member()
        }
    }

    /// The graph has a cycle just when some plugin needs itself through a chain.
    proof fn lemma_cycle(&self)
        requires
            self.wf(),
        ensures
            self.has_cycle() <==> cyclic(graph_edges(self.graph)),
            forall|a: int|
                0 <= a < self.names@.len() && #[trigger] on_cycle(graph_edges(self.graph), a)
                    ==> self.needs_itself(self.names@[a]@),
    {
        let edges = graph_edges(self.graph);
        if self.has_cycle() {
            let chain = choose|chain: Seq<Seq<char>>|
                self.is_chain(chain) && chain.len() >= 2 && chain.first() == chain.last();
            let walk = self.lemma_chain_to_walk(chain);
            assert(walk[0] == self.index_of(chain[0]));
            assert(walk[chain.len() - 1] == self.index_of(chain[chain.len() - 1]));
            assert(chain[0] == chain[chain.len() - 1]);
            assert(is_walk(edges, walk) && walk.len() >= 2 && walk.first() == walk[0] && walk.last()
                == walk[0]);
            assert(on_cycle(edges, walk[0]));
            assert(cyclic(edges));
        }
        assert forall|a: int| #[trigger] on_cycle(edges, a) implies self.has_cycle() && (0 <= a
            < self.names@.len() ==> self.needs_itself(self.names@[a]@)) by {
            let walk = choose|walk: Seq<int>|
                is_walk(edges, walk) && walk.len() >= 2 && walk.first() == a && walk.last() == a;
            let chain = self.lemma_walk_to_chain(walk);
            assert(chain[0] == self.names@[walk[0]]@);
            assert(chain[chain.len() - 1] == self.names@[walk[walk.len() - 1]]@);
            assert(self.is_chain(chain) && chain.len() >= 2 && chain.first() == chain.last());
            assert(chain.first() == self.names@[a]@ && chain.last() == self.names@[a]@);
        }
        if cyclic(edges) {
            let a = choose|a: int| on_cycle(edges, a);
            assert(on_cycle(edges, a));
        }
    }

    /// Two different plugins that need each other lie on a cycle.
    proof fn lemma_mutual_is_cycle(&self)
        requires
            self.wf(),
            self.has_mutual_dependency(),
        ensures
            self.has_cycle(),
    {
        let edges = graph_edges(self.graph);
        let (x, y) = choose|x: Seq<char>, y: Seq<char>| x != y && self.needs(x, y) && self.needs(y, x);
        self.lemma_needs_nodes(x, y);
        self.lemma_contained(x);
        self.lemma_contained(y);
        let a = self.index_of(x);
        let b = self.index_of(y);
        self.lemma_reaches_is_needs(a, b);
        self.lemma_reaches_is_needs(b, a);
        let w1 = choose|walk: Seq<int>| is_walk(edges, walk) && walk.first() == a && walk.last() == b;
        let w2 = choose|walk: Seq<int>| is_walk(edges, walk) && walk.first() == b && walk.last() == a;
        assert(w1.len() >= 2);
        let both = lemma_walk_concat(edges, w1, w2);
        assert(on_cycle(edges, a));
        self.lemma_cycle();
    }

    /// A part of a chain is a chain.
    proof fn lemma_subchain(&self, chain: Seq<Seq<char>>, from: int, to: int)
        requires
            self.is_chain(chain),
            0 <= from < to <= chain.len(),
        ensures
            self.is_chain(chain.subrange(from, to)),
    {
        let part = chain.subrange(from, to);
        assert forall|i: int| 0 <= i < part.len() - 1 implies #[trigger] self.link_ok(part, i) by {
            assert(self.link_ok(chain, from + i));
        }
    }

    /// A cycle either joins two different plugins that need each other, or
    /// is a plugin that depends on itself.
    pub proof fn lemma_cycle_kinds(&self)
        requires
            self.wf(),
            self.has_cycle(),
        ensures
            self.has_mutual_dependency() || exists|x: Seq<char>| #[trigger] self.depends_on(x, x),
    {
        let chain = choose|chain: Seq<Seq<char>>|
            self.is_chain(chain) && chain.len() >= 2 && chain.first() == chain.last();
        let x = chain[0];
        if forall|i: int| 0 <= i < chain.len() ==> chain[i] == x {
            assert(self.link_ok(chain, 0));
            assert(self.depends_on(x, x));
        } else {
            let i = choose|i: int| 0 <= i < chain.len() && chain[i] != x;
            let y = chain[i];
            self.lemma_subchain(chain, 0, i + 1);
            self.lemma_subchain(chain, i, chain.len() as int);
            let up = chain.subrange(0, i + 1);
            let down = chain.subrange(i, chain.len() as int);
            assert(up.first() == x && up.last() == y);
            assert(down.first() == y && down.last() == x);
            assert(self.needs(y, x));
            assert(self.needs(x, y));
        }
    }

    /// The groups of plugins that depend on each other in a circle. There
    /// is such a group just when two different plugins need each other,
    /// and the plugins of a group all need each other.
    pub fn find_cycles(&self) -> (r: Vec<Vec<String>>)
        requires
            self.wf(),
        ensures
            lists_of(r@) == self.cyclic_groups(),
            r@.len() > 0 <==> self.has_mutual_dependency(),
            forall|g: int, i: int, j: int|
                #![trigger r@[g]@[i], r@[g]@[j]]
                0 <= g < r@.len() && 0 <= i < r@[g]@.len() && 0 <= j < r@[g]@.len() ==> self.needs(
                    r@[g]@[i]@,
                    r@[g]@[j]@,
                ),
            forall|g: int| 0 <= g < r@.len() ==> (#[trigger] r@[g])@.len() >= 2,
    {
        let ghost edges = graph_edges(self.graph);
        let ghost n = self.names@.len() as int;
        let parts_list = graph_components(&self.graph);
        let ghost parts = int_lists_of(parts_list@);
        let ghost named = self.components();
        let mut out: Vec<Vec<String>> = Vec::new();
        let ghost mut from: Seq<int> = Seq::empty();
        let mut c: usize = 0;
        proof {
            assert(named.take(0) =~= Seq::<Seq<Seq<char>>>::empty());
            assert(lists_of(out@) =~= Seq::<Seq<Seq<char>>>::empty());
            assert forall|i: int, j: int|
                0 <= i < parts_list@.len() && 0 <= j < parts_list@[i]@.len() implies (
            #[trigger] parts_list@[i]@[j]) < n by {
                assert(parts[i][j] == parts_list@[i]@[j]);
            }
        }
        while c < parts_list.len()
            invariant
                self.wf(),
                c <= parts_list@.len(),
                n == self.names@.len(),
                parts == int_lists_of(parts_list@),
                parts == components_of(self.graph),
                named == self.components(),
                named.len() == parts_list@.len(),
                forall|i: int, j: int|
                    0 <= i < parts_list@.len() && 0 <= j < parts_list@[i]@.len() ==> (
                    #[trigger] parts_list@[i]@[j]) < n,
                lists_of(out@) == groups_with_several(named.take(c as int)),
                from.len() == out@.len(),
                forall|g: int|
                    0 <= g < out@.len() ==> 0 <= #[trigger] from[g] < c && out@[g]@.len()
                        == parts_list@[from[g]]@.len() && out@[g]@.len() >= 2,
                forall|g: int, i: int|
                    0 <= g < out@.len() && 0 <= i < out@[g]@.len() ==> (#[trigger] out@[g]@[i])@
                        == self.names@[parts_list@[from[g]]@[i] as int]@,
                forall|k: int|
                    0 <= k < c && (#[trigger] parts_list@[k])@.len() >= 2 ==> from.contains(k),
            decreases parts_list@.len() - c,
        {
            proof {
                assert(named.take(c + 1).drop_last() =~= named.take(c as int));
                assert(named.take(c + 1).last() == named[c as int]);
                assert(named[c as int] == self.names_along(parts[c as int]));
                assert(parts[c as int] == ints_of(parts_list@[c as int]@));
                assert(named[c as int].len() == parts_list@[c as int]@.len());
            }
            if parts_list[c].len() > 1 {
                let group = self.names_at(&parts_list[c], 0);
                proof {
                    assert(names_of(group@) =~= named[c as int]) by {
                        assert forall|i: int| 0 <= i < group@.len() implies names_of(group@)[i]
                            == named[c as int][i] by {
                            assert(group@[i]@ == self.names@[parts_list@[c as int]@[0 + i] as int]@);
                            assert(parts[c as int][i] == parts_list@[c as int]@[i]);
                        }
                    }
                    assert(lists_of(out@.push(group)) =~= lists_of(out@).push(names_of(group@)));
                }
                let ghost before = from;
                let ghost out_before = out@;
                out.push(group);
                proof {
                    from = from.push(c as int);
                    assert forall|k: int| 0 <= k < c + 1 && (#[trigger] parts_list@[k])@.len()
                        >= 2 implies from.contains(k) by {
                        if k < c {
                            let g = choose|g: int| 0 <= g < before.len() && before[g] == k;
                            assert(from[g] == k);
                        } else {
                            assert(from[before.len() as int] == k);
                        }
                    }
                    assert forall|g: int, i: int|
                        0 <= g < out@.len() && 0 <= i < out@[g]@.len() implies (
                    #[trigger] out@[g]@[i])@ == self.names@[parts_list@[from[g]]@[i] as int]@ by {
                        if g < out_before.len() {
                            assert(out@[g] == out_before[g]);
                            assert(from[g] == before[g]);
                        } else {
                            assert(group@[i]@ == self.names@[parts_list@[c as int]@[0 + i] as int]@);
                        }
                    }
                }
            }
            c = c + 1;
        }
        proof {
            assert(named.take(c as int) =~= named);
            assert forall|g: int, i: int|
                0 <= g < out@.len() && 0 <= i < out@[g]@.len() implies 0 <= from[g] < parts.len() && 0
                <= i < parts[from[g]].len() && #[trigger] parts[from[g]][i]
                == parts_list@[from[g]]@[i] by {}
            assert forall|g: int, i: int, j: int|
                #![trigger out@[g]@[i], out@[g]@[j]]
                0 <= g < out@.len() && 0 <= i < out@[g]@.len() && 0 <= j < out@[g]@.len() implies self.needs(
                out@[g]@[i]@,
                out@[g]@[j]@,
            ) by {
                let k = from[g];
                let a = parts[k][i];
                let b = parts[k][j];
                assert(a == parts_list@[k]@[i] && b == parts_list@[k]@[j]);
                assert(reaches(edges, parts[k][j], parts[k][i]));
                self.lemma_reaches_is_needs(b, a);
            }
            assert forall|g: int| 0 <= g < out@.len() implies (#[trigger] out@[g])@.len() >= 2 by {
                assert(0 <= from[g] < c);
            }
            if out@.len() > 0 {
                let k = from[0];
                let a = parts[k][0];
                let b = parts[k][1];
                assert(a == parts_list@[k]@[0] && b == parts_list@[k]@[1]);
                assert(a != b);
                assert(reaches(edges, parts[k][0], parts[k][1]) && reaches(
                    edges,
                    parts[k][1],
                    parts[k][0],
                ));
                self.lemma_reaches_is_needs(a, b);
                self.lemma_reaches_is_needs(b, a);
                self.lemma_index(a);
                self.lemma_index(b);
                let x = self.names@[a]@;
                let y = self.names@[b]@;
                assert(x != y && self.needs(x, y) && self.needs(y, x));
            }
            if self.has_mutual_dependency() {
                let (x, y) = choose|x: Seq<char>, y: Seq<char>|
                    x != y && self.needs(x, y) && self.needs(y, x);
                self.lemma_needs_nodes(x, y);
                self.lemma_contained(x);
                self.lemma_contained(y);
                let a = self.index_of(x);
                let b = self.index_of(y);
                self.lemma_reaches_is_needs(a, b);
                self.lemma_reaches_is_needs(b, a);
                assert(in_some_part(parts, a));
                assert(in_some_part(parts, b));
                let (i, j) = choose|i: int, j: int|
                    0 <= i < parts.len() && 0 <= j < parts[i].len() && #[trigger] parts[i][j] == a;
                let (k, l) = choose|k: int, l: int|
                    0 <= k < parts.len() && 0 <= l < parts[k].len() && #[trigger] parts[k][l] == b;
                assert(reaches(edges, parts[i][j], parts[k][l]) && reaches(
                    edges,
                    parts[k][l],
                    parts[i][j],
                ));
                assert(i == k);
                assert(j != l);
                assert(parts[i].len() == parts_list@[i]@.len());
                assert(parts_list@[i]@.len() >= 2);
                assert(from.contains(i));
            }
        }
        out
    }

    /// Fails where plugins depend on each other in a circle, listing the groups.
    pub fn check_circular_dependencies(&self) -> (r: Result<(), Error>)
        requires
            self.wf(),
        ensures
            r is Err <==> self.has_mutual_dependency(),
            r matches Err(e) ==> self.is_order_error(e),
    {
        let groups = self.find_cycles();
        if groups.len() > 0 {
            return Err(Error::Dependency(circular_message(&groups)));
        }
        Ok(())
    }

    /// The plugins in load order: every plugin after all that it needs.
    /// Fails where the dependencies have a cycle.
    pub fn get_load_order(&self) -> (r: Result<Vec<String>, Error>)
        requires
            self.wf(),
        ensures
            r is Ok <==> !self.has_cycle(),
            r matches Ok(order) ==> names_of(order@) == self.load_order() && self.is_load_order(
                names_of(order@),
            ),
            r matches Err(e) ==> self.is_order_error(e),
            r is Err && !self.has_mutual_dependency() ==> self.needs_itself(self.cycle_member()),
    {
        let ghost edges = graph_edges(self.graph);
        let ghost n = self.names@.len() as int;
        proof {
            self.lemma_cycle();
        }
        match self.check_circular_dependencies() {
            Err(e) => {
                proof {
                    self.lemma_mutual_is_cycle();
                }
                return Err(e);
            },
            Ok(_) => {},
        }
        match graph_toposort(&self.graph) {
            Ok(order) => {
                proof {
                    assert forall|i: int| 0 <= i < order@.len() implies #[trigger] order@[i] < n by {
                        assert(ints_of(order@)[i] == order@[i]);
                    }
                }
                let plugins = self.names_at(&order, 0);
                proof {
                    let ord = ints_of(order@);
                    let listed = names_of(plugins@);
                    assert(listed =~= self.names_along(ord)) by {
                        assert forall|i: int| 0 <= i < listed.len() implies listed[i] == self.names_along(
                            ord,
                        )[i] by {
                            assert(plugins@[i]@ == self.names@[order@[0 + i] as int]@);
                        }
                    }
                    assert forall|i: int| 0 <= i < listed.len() implies #[trigger] listed[i]
                        == self.names@[ord[i]]@ && 0 <= ord[i] < n by {
                        assert(plugins@[i]@ == self.names@[order@[0 + i] as int]@);
                    }
                    assert forall|i: int, j: int| 0 <= i < j < listed.len() implies listed[i]
                        != listed[j] by {
                        assert(ord[i] != ord[j]);
                        self.lemma_index(ord[i]);
                        self.lemma_index(ord[j]);
                    }
                    assert forall|s: Seq<char>| #[trigger] listed.contains(s) <==> self.contains(s) by {
                        if listed.contains(s) {
                            let i = choose|i: int| 0 <= i < listed.len() && listed[i] == s;
                            self.lemma_index(ord[i]);
                        }
                        if self.contains(s) {
                            self.lemma_contained(s);
                            let v = self.index_of(s);
                            assert(ord.contains(v));
                            let i = choose|i: int| 0 <= i < ord.len() && ord[i] == v;
                            assert(listed[i] == s);
                        }
                    }
                    assert forall|i: int, j: int|
                        0 <= i < listed.len() && 0 <= j < listed.len() && #[trigger] self.depends_on(
                            listed[j],
                            listed[i],
                        ) implies i < j by {
                        self.lemma_index(ord[i]);
                        self.lemma_index(ord[j]);
                        assert(has_edge(edges, ord[i], ord[j]));
                    }
                }
                Ok(plugins)
            },
            Err(node) => {
                proof {
                    assert(self.needs_itself(self.names@[node as int]@));
                }
                Err(
                    Error::Dependency(
                        join2("Cycle detected involving plugin: ", self.names[node].as_str()),
                    ),
                )
            },
        }
    }

    /// The plugins in unload order: the load order backwards, so that every
    /// plugin comes before all that it needs.
    pub fn get_unload_order(&self) -> (r: Result<Vec<String>, Error>)
        requires
            self.wf(),
        ensures
            r is Ok <==> !self.has_cycle(),
            r matches Ok(order) ==> names_of(order@) == self.load_order().reverse(),
            r matches Err(e) ==> self.is_order_error(e),
    {
        match self.get_load_order() {
            Err(e) => Err(e),
            Ok(order) => {
                let mut out: Vec<String> = Vec::new();
                let mut i: usize = order.len();
                while i > 0
                    invariant
                        i <= order@.len(),
                        out@.len() == order@.len() - i,
                        forall|k: int| 0 <= k < out@.len() ==> #[trigger] out@[k]@ == order@[
                            order@.len() - 1 - k
                        ]@,
                    decreases i,
                {
                    i = i - 1;
                    out.push(order[i].clone());
                }
                assert(names_of(out@) =~= names_of(order@).reverse());
                Ok(out)
            },
        }
    }

    /// What `plugin_name` needs, directly or through others, without what
    /// `required_deps` lists.
    pub fn get_optional_dependencies(&self, plugin_name: &str, required_deps: &[String]) -> (r: Vec<
        String,
    >)
        requires
            self.wf(),
        ensures
            distinct(names_of(r@)),
            forall|s: Seq<char>| #[trigger]
                names_of(r@).contains(s) <==> s != plugin_name@ && self.needs(plugin_name@, s)
                    && !names_of(required_deps@).contains(s),
    {
        let all = self.get_all_dependencies(plugin_name);
        let mut out: Vec<String> = Vec::new();
        let ghost mut from: Seq<int> = Seq::empty();
        let mut i: usize = 0;
        while i < all.len()
            invariant
                i <= all@.len(),
                from.len() == out@.len(),
                forall|k: int|
                    0 <= k < from.len() ==> 0 <= #[trigger] from[k] < i && out@[k]@ == all@[from[k]]@
                        && !names_of(required_deps@).contains(all@[from[k]]@),
                forall|k: int, l: int| 0 <= k < l < from.len() ==> from[k] < from[l],
                forall|u: int|
                    0 <= u < i && !names_of(required_deps@).contains((#[trigger] all@[u])@)
                        ==> from.contains(u),
            decreases all@.len() - i,
        {
            if !list_contains(required_deps, all[i].as_str()) {
                let ghost before = from;
                out.push(all[i].clone());
                proof {
                    from = from.push(i as int);
                    assert forall|u: int|
                        0 <= u < i + 1 && !names_of(required_deps@).contains((#[trigger] all@[u])@) implies from.contains(
                        u,
                    ) by {
                        if u < i {
                            let k = choose|k: int| 0 <= k < before.len() && before[k] == u;
                            assert(from[k] == u);
                        } else {
                            assert(from[before.len() as int] == u);
                        }
                    }
                }
            }
            i = i + 1;
        }
        proof {
            let listed = names_of(out@);
            let full = names_of(all@);
            assert forall|k: int, l: int| 0 <= k < l < listed.len() implies listed[k] != listed[l] by {
                assert(from[k] < from[l]);
                assert(full[from[k]] != full[from[l]]);
            }
            assert forall|s: Seq<char>| #[trigger]
                listed.contains(s) <==> s != plugin_name@ && self.needs(plugin_name@, s) && !names_of(
                    required_deps@,
                ).contains(s) by {
                if listed.contains(s) {
                    let k = choose|k: int| 0 <= k < listed.len() && listed[k] == s;
                    assert(full[from[k]] == s);
                    assert(full.contains(s));
                }
                if s != plugin_name@ && self.needs(plugin_name@, s) && !names_of(
                    required_deps@,
                ).contains(s) {
                    assert(full.contains(s));
                    let u = choose|u: int| 0 <= u < full.len() && full[u] == s;
                    assert(all@[u]@ == s);
                    assert(from.contains(u));
                    let k = choose|k: int| 0 <= k < from.len() && from[k] == u;
                    assert(listed[k] == s);
                }
            }
        }
        out
    }

    /// The number of nodes and of recorded dependencies.
    pub fn stats(&self) -> (r: DependencyGraphStats)
        requires
            self.wf(),
        ensures
            r.total_plugins == self.node_count(),
            r.total_dependencies == self.dependency_total(),
    {
        DependencyGraphStats {
            total_plugins: self.names.len(),
            total_dependencies: graph_edge_count(&self.graph),
        }
    }

    /// Unloading runs the load order backwards: in a load order read from
    /// the end, every name is listed once and every plugin comes before
    /// all that it depends on.
    pub proof fn lemma_unload_order(&self, order: Seq<Seq<char>>)
        requires
            self.is_load_order(order),
        ensures
            distinct(order.reverse()),
            forall|s: Seq<char>| #[trigger] order.reverse().contains(s) <==> self.contains(s),
            forall|i: int, j: int|
                0 <= i < order.len() && 0 <= j < order.len() && #[trigger] self.depends_on(
                    order.reverse()[i],
                    order.reverse()[j],
                ) ==> i < j,
    {
        let back = order.reverse();
        let n = order.len() as int;
        assert forall|i: int| 0 <= i < n implies #[trigger] back[i] == order[n - 1 - i] by {}
        assert forall|i: int, j: int| 0 <= i < j < back.len() implies back[i] != back[j] by {
            assert(order[n - 1 - j] != order[n - 1 - i]);
        }
        assert forall|s: Seq<char>| #[trigger] back.contains(s) <==> self.contains(s) by {
            if back.contains(s) {
                let i = choose|i: int| 0 <= i < back.len() && back[i] == s;
                assert(order[n - 1 - i] == s);
                assert(order.contains(s));
            }
            if self.contains(s) {
                assert(order.contains(s));
                let i = choose|i: int| 0 <= i < order.len() && order[i] == s;
                assert(back[n - 1 - i] == s);
            }
        }
        assert forall|i: int, j: int|
            0 <= i < n && 0 <= j < n && #[trigger] self.depends_on(back[i], back[j]) implies i < j by {
            assert(self.depends_on(order[n - 1 - i], order[n - 1 - j]));
        }
    }

    /// The names in the graph, in the order of their nodes.
    pub fn plugin_names(&self) -> (r: Vec<String>)
        ensures
            names_of(r@) == self.nodes(),
    {
        let mut out: Vec<String> = Vec::new();
        let mut i: usize = 0;
        while i < self.names.len()
            invariant
                i <= self.names@.len(),
                out@.len() == i,
                forall|k: int| 0 <= k < i ==> #[trigger] out@[k]@ == self.names@[k]@,
            decreases self.names@.len() - i,
        {
            out.push(self.names[i].clone());
            i = i + 1;
        }
        assert(names_of(out@) =~= names_of(self.names@));
        out
    }
}

/// What resolving the dependencies of all plugins has found.
#[derive(Debug)]
pub struct DependencyResolution {
    /// The plugins in load order; empty unless the resolution is successful.
    pub load_order: Vec<String>,
    /// The plugins with missing dependencies, each with what it misses.
    pub missing_dependencies: Vec<(String, Vec<String>)>,
    /// The groups of plugins that depend on each other in a circle.
    pub circular_dependencies: Vec<Vec<String>>,
}

impl DependencyResolution {
    /// A resolution that has found nothing.
    pub fn new() -> (r: Self)
        ensures
            r.load_order@.len() == 0,
            r.missing_dependencies@.len() == 0,
            r.circular_dependencies@.len() == 0,
    {
        DependencyResolution {
            load_order: Vec::new(),
            missing_dependencies: Vec::new(),
            circular_dependencies: Vec::new(),
        }
    }

    /// Whether nothing is missing and nothing is circular.
    pub fn is_successful(&self) -> (r: bool)
        ensures
            r == (self.missing_dependencies@.len() == 0 && self.circular_dependencies@.len() == 0),
    {
        self.missing_dependencies.len() == 0 && self.circular_dependencies.len() == 0
    }
}

/// Gathers the plugins with their declared dependencies and resolves them
/// all at once.
pub struct DependencyResolver {
    graph: DependencyGraph,
}

impl DependencyResolver {
    /// The graph of what was added.
    pub closed spec fn graph(&self) -> DependencyGraph {
        self.graph
    }

    /// The graph is well formed.
    pub open spec fn wf(&self) -> bool {
        self.graph().wf()
    }

    /// A resolver without plugins.
    pub fn new() -> (r: Self)
        ensures
            r.wf(),
            r.graph().nodes().len() == 0,
            r.graph().dependency_total() == 0,
    {
        DependencyResolver { graph: DependencyGraph::new() }
    }

    /// Adds a plugin with the dependencies that its manifest declares.
    pub fn add_plugin_manifest(&mut self, plugin_name: String, dependencies: Vec<String>) -> (r: Result<
        (),
        Error,
    >)
        requires
            old(self).wf(),
            old(self).graph().node_count() + dependencies@.len() + 1 < u32::MAX,
            old(self).graph().dependency_total() + dependencies@.len() < u32::MAX,
        ensures
            r is Ok,
            final(self).wf(),
            final(self).graph().is_added(&old(self).graph(), plugin_name@, names_of(dependencies@)),
    {
        self.graph.add_plugin(plugin_name, dependencies)
    }

    /// Resolves the dependencies of everything that was added: lists the
    /// plugins that miss a dependency and the circular groups, and gives
    /// the load order where there are neither.
    pub fn resolve(&self) -> (r: DependencyResolution)
        requires
            self.wf(),
        ensures
            lists_of(r.circular_dependencies@) == self.graph().cyclic_groups(),
            r.circular_dependencies@.len() > 0 <==> self.graph().has_mutual_dependency(),
            forall|i: int|
                0 <= i < r.missing_dependencies@.len() ==> self.graph().contains(
                    (#[trigger] r.missing_dependencies@[i]).0@,
                ) && r.missing_dependencies@[i].1@.len() > 0 && (forall|s: Seq<char>| #[trigger]
                    names_of(r.missing_dependencies@[i].1@).contains(s) <==> self.graph().depends_on(
                        r.missing_dependencies@[i].0@,
                        s,
                    ) && !self.graph().is_registered(s)),
            forall|p: Seq<char>|
                self.graph().contains(p) && #[trigger] self.graph().misses_something(p) ==> exists|i: int|
                    0 <= i < r.missing_dependencies@.len() && (#[trigger] r.missing_dependencies@[i]).0@
                        == p,
            r.missing_dependencies@.len() == 0 && r.circular_dependencies@.len() == 0
                && !self.graph().has_cycle() ==> names_of(r.load_order@) == self.graph().load_order()
                && self.graph().is_load_order(names_of(r.load_order@)),
            r.missing_dependencies@.len() > 0 || r.circular_dependencies@.len() > 0
                || self.graph().has_cycle() ==> r.load_order@.len() == 0,
    {
        let circular = self.graph.find_cycles();
        let names = self.graph.plugin_names();
        let mut missing_list: Vec<(String, Vec<String>)> = Vec::new();
        let mut i: usize = 0;
        while i < names.len()
            invariant
                self.wf(),
                i <= names@.len(),
                names_of(names@) == self.graph().nodes(),
                forall|k: int|
                    0 <= k < missing_list@.len() ==> self.graph().contains(
                        (#[trigger] missing_list@[k]).0@,
                    ) && missing_list@[k].1@.len() > 0 && (forall|s: Seq<char>| #[trigger]
                        names_of(missing_list@[k].1@).contains(s) <==> self.graph().depends_on(
                            missing_list@[k].0@,
                            s,
                        ) && !self.graph().is_registered(s)),
                forall|u: int|
                    0 <= u < i && self.graph().misses_something((#[trigger] names@[u])@) ==> exists|k: int|
                        0 <= k < missing_list@.len() && (#[trigger] missing_list@[k]).0@ == names@[u]@,
            decreases names@.len() - i,
        {
            let missing = self.graph.check_missing_dependencies(names[i].as_str());
            proof {
                assert(names_of(names@)[i as int] == names@[i as int]@);
                assert(self.graph().contains(names@[i as int]@));
                if missing@.len() == 0 && self.graph().misses_something(names@[i as int]@) {
                    let s = choose|s: Seq<char>| #[trigger]
                        self.graph().depends_on(names@[i as int]@, s) && !self.graph().is_registered(
                            s,
                        );
                    assert(names_of(missing@).contains(s));
                    let k = choose|k: int| 0 <= k < names_of(missing@).len() && names_of(missing@)[k] == s;
                }
            }
            if missing.len() > 0 {
                let ghost before = missing_list@;
                let entry = (names[i].clone(), missing);
                missing_list.push(entry);
                proof {
                    assert forall|u: int|
                        0 <= u < i + 1 && self.graph().misses_something((#[trigger] names@[u])@) implies exists|
                        k: int,
                    | 0 <= k < missing_list@.len() && (#[trigger] missing_list@[k]).0@ == names@[u]@ by {
                        if u < i {
                            let k = choose|k: int|
                                0 <= k < before.len() && (#[trigger] before[k]).0@ == names@[u]@;
                            assert(missing_list@[k] == before[k]);
                        } else {
                            assert(missing_list@[before.len() as int].0@ == names@[u]@);
                        }
                    }
                }
            }
            i = i + 1;
        }
        proof {
            assert forall|p: Seq<char>|
                self.graph().contains(p) && #[trigger] self.graph().misses_something(p) implies exists|k: int|
                0 <= k < missing_list@.len() && (#[trigger] missing_list@[k]).0@ == p by {
                let u = choose|u: int| 0 <= u < names_of(names@).len() && names_of(names@)[u] == p;
                assert(names@[u]@ == p);
            }
        }
        let mut load_order: Vec<String> = Vec::new();
        if missing_list.len() == 0 && circular.len() == 0 {
            match self.graph.get_load_order() {
                Ok(order) => {
                    load_order = order;
                },
                Err(_) => {},
            }
        }
        let ghost listed = missing_list@;
        let r = DependencyResolution {
            load_order,
            missing_dependencies: missing_list,
            circular_dependencies: circular,
        };
        proof {
            assert(r.missing_dependencies@ == listed);
            assert forall|p: Seq<char>|
                self.graph().contains(p) && #[trigger] self.graph().misses_something(p) implies exists|k: int|
                0 <= k < r.missing_dependencies@.len() && (#[trigger] r.missing_dependencies@[k]).0@
                    == p by {
                let k = choose|k: int| 0 <= k < listed.len() && (#[trigger] listed[k]).0@ == p;
                assert(r.missing_dependencies@[k].0@ == p);
            }
        }
        r
    }

    /// Every plugin that needs `plugin_name`, directly or through others.
    pub fn get_dependents(&self, plugin_name: &str) -> (r: Vec<String>)
        requires
            self.wf(),
        ensures
            distinct(names_of(r@)),
            forall|s: Seq<char>| #[trigger]
                names_of(r@).contains(s) <==> s != plugin_name@ && self.graph().needs(s, plugin_name@),
    {
        self.graph.get_all_dependents(plugin_name)
    }

    /// Every plugin that `plugin_name` needs, directly or through others.
    pub fn get_dependencies(&self, plugin_name: &str) -> (r: Vec<String>)
        requires
            self.wf(),
        ensures
            distinct(names_of(r@)),
            forall|s: Seq<char>| #[trigger]
                names_of(r@).contains(s) <==> s != plugin_name@ && self.graph().needs(plugin_name@, s),
    {
        self.graph.get_all_dependencies(plugin_name)
    }

    /// Whether everything that `plugin_name` depends on is registered.
    pub fn has_all_dependencies(&self, plugin_name: &str) -> (r: bool)
        requires
            self.wf(),
        ensures
            r <==> !self.graph().misses_something(plugin_name@),
    {
        let missing = self.graph.check_missing_dependencies(plugin_name);
        proof {
            if missing@.len() > 0 {
                assert(names_of(missing@).contains(names_of(missing@)[0]));
            } else if self.graph().misses_something(plugin_name@) {
                let s = choose|s: Seq<char>| #[trigger]
                    self.graph().depends_on(plugin_name@, s) && !self.graph().is_registered(s);
                assert(names_of(missing@).contains(s));
                let k = choose|k: int| 0 <= k < names_of(missing@).len() && names_of(missing@)[k] == s;
            }
        }
        missing.len() == 0
    }
}

} // verus!
