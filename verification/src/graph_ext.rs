//! The molecular graph collection: petgraph's stable undirected graph,
//! held behind trusted declarations.
//!
//! The graph's contents are named by two uninterpreted functions,
//! [`graph_nodes`] and [`graph_edges`]; every wrapper below states what the
//! petgraph call it makes does to those names, as petgraph's source shows
//! it.  Node indices are stable: removing a node never renumbers another.

use vstd::prelude::*;
use vstd::multiset::Multiset;

use crate::atom::AtomNode;

use petgraph::stable_graph::NodeIndex;
use petgraph::stable_graph::StableGraph;
use petgraph::visit::EdgeRef;
use petgraph::visit::IntoEdgeReferences;
use petgraph::visit::IntoNodeReferences;
use petgraph::Undirected;

verus! {

#[verifier::external_type_specification]
#[verifier::external_body]
#[verifier::reject_recursive_types(N)]
#[verifier::reject_recursive_types(E)]
#[verifier::reject_recursive_types(Ty)]
#[verifier::reject_recursive_types(Ix)]
pub struct ExStableGraph<N, E, Ty, Ix>(StableGraph<N, E, Ty, Ix>);

#[verifier::external_type_specification]
#[verifier::external_body]
pub struct ExUndirected(Undirected);

/// A graph representation of a molecule: each node stores an atom, each
/// edge the integer order of a bond.  The graph is stable so that deleting
/// atoms does not change the index of other atoms, and undirected because
/// bonds have no direction.
pub type MoleculeGraph = StableGraph<AtomNode, u8, Undirected, usize>;

/// The nodes a molecular graph holds, as a map from stable node index to
/// the atom stored there.
pub uninterp spec fn graph_nodes(g: MoleculeGraph) -> Map<int, AtomNode>;

/// The edges a molecular graph holds, as a multiset of
/// (source index, target index, bond order) triples, oriented as inserted.
pub uninterp spec fn graph_edges(g: MoleculeGraph) -> Multiset<(int, int, u8)>;

/// Whether some edge joins indices `a` and `b`, in either orientation.
pub open spec fn has_edge_between(es: Multiset<(int, int, u8)>, a: int, b: int) -> bool {
    exists|w: u8| #[trigger] es.count((a, b, w)) > 0 || #[trigger] es.count((b, a, w)) > 0
}

/// The empty node map.
pub open spec fn empty_nodes() -> Map<int, AtomNode> {
    Map::empty()
}

/// The empty edge multiset.
pub open spec fn empty_edges() -> Multiset<(int, int, u8)> {
    Multiset::empty()
}

/// Relies on `StableGraph::default`: an empty graph.
#[verifier::external_body]
pub(crate) fn g_new() -> (g: MoleculeGraph)
    ensures
        graph_nodes(g) == empty_nodes(),
        graph_edges(g) == empty_edges(),
{
    StableGraph::default()
}

/// Relies on `StableGraph::add_node`: stores the weight in a vacant slot
/// and returns that slot's index, never an index currently occupied.
#[verifier::external_body]
pub(crate) fn g_add_node(g: &mut MoleculeGraph, n: AtomNode) -> (ix: usize)
    ensures
        !graph_nodes(*old(g)).contains_key(ix as int),
        graph_nodes(*final(g)) == graph_nodes(*old(g)).insert(ix as int, n),
        graph_edges(*final(g)) == graph_edges(*old(g)),
{
    g.add_node(n).index()
}

/// Relies on `StableGraph::remove_node`: removes the node if present,
/// together with every edge that touches it, and returns its weight.  No
/// other node's index changes.
#[verifier::external_body]
pub(crate) fn g_remove_node(g: &mut MoleculeGraph, ix: usize) -> (r: Option<AtomNode>)
    ensures
        graph_nodes(*final(g)) == graph_nodes(*old(g)).remove(ix as int),
        graph_edges(*final(g)) == graph_edges(*old(g)).filter(
            |e: (int, int, u8)| e.0 != ix as int && e.1 != ix as int,
        ),
        r == if graph_nodes(*old(g)).contains_key(ix as int) {
            Some(graph_nodes(*old(g))[ix as int])
        } else {
            None::<AtomNode>
        },
{
    g.remove_node(NodeIndex::new(ix))
}

/// Relies on `StableGraph::add_edge`: records one more (possibly parallel)
/// edge from `a` to `b`.  Both endpoints must exist, since petgraph panics
/// otherwise.
#[verifier::external_body]
pub(crate) fn g_add_edge(g: &mut MoleculeGraph, a: usize, b: usize, w: u8)
    requires
        graph_nodes(*old(g)).contains_key(a as int),
        graph_nodes(*old(g)).contains_key(b as int),
    ensures
        graph_nodes(*final(g)) == graph_nodes(*old(g)),
        graph_edges(*final(g)) == graph_edges(*old(g)).insert((a as int, b as int, w)),
{
    g.add_edge(NodeIndex::new(a), NodeIndex::new(b), w);
}

/// Relies on `StableGraph::node_weight`: the atom at an index, if the
/// index is occupied.
#[verifier::external_body]
pub(crate) fn g_node_weight(g: &MoleculeGraph, ix: usize) -> (r: Option<AtomNode>)
    ensures
        r == if graph_nodes(*g).contains_key(ix as int) {
            Some(graph_nodes(*g)[ix as int])
        } else {
            None::<AtomNode>
        },
{
    g.node_weight(NodeIndex::new(ix)).copied()
}

/// Relies on `StableGraph::contains_edge`, which looks an edge up in
/// either orientation on an undirected graph.
#[verifier::external_body]
pub(crate) fn g_contains_edge(g: &MoleculeGraph, a: usize, b: usize) -> (r: bool)
    ensures
        r == has_edge_between(graph_edges(*g), a as int, b as int),
{
    g.contains_edge(NodeIndex::new(a), NodeIndex::new(b))
}

/// Relies on `StableGraph::clear`: removes every node and edge.
#[verifier::external_body]
pub(crate) fn g_clear(g: &mut MoleculeGraph)
    ensures
        graph_nodes(*final(g)) == empty_nodes(),
        graph_edges(*final(g)) == empty_edges(),
{
    g.clear();
}

/// Relies on `StableGraph::clone` (a plain field-for-field copy): the
/// copy holds the same nodes at the same indices and the same edges.
#[verifier::external_body]
pub(crate) fn g_clone(g: &MoleculeGraph) -> (r: MoleculeGraph)
    ensures
        graph_nodes(r) == graph_nodes(*g),
        graph_edges(r) == graph_edges(*g),
{
    g.clone()
}

/// Relies on `StableGraph::node_references`, which yields every occupied
/// node exactly once, in increasing index order.
#[verifier::external_body]
pub(crate) fn g_node_list(g: &MoleculeGraph) -> (r: Vec<(usize, AtomNode)>)
    ensures
        forall|k: int|
            0 <= k < r@.len() ==> graph_nodes(*g).contains_key((#[trigger] r@[k]).0 as int)
                && graph_nodes(*g)[r@[k].0 as int] == r@[k].1,
        forall|i: int|
            #[trigger] graph_nodes(*g).contains_key(i) ==> exists|k: int|
                0 <= k < r@.len() && (#[trigger] r@[k]).0 == i,
        forall|k1: int, k2: int|
            0 <= k1 < k2 < r@.len() ==> (#[trigger] r@[k1]).0 < (#[trigger] r@[k2]).0,
{
    g.node_references().map(|p: (NodeIndex<usize>, &AtomNode)| (p.0.index(), *p.1)).collect()
}

/// Relies on `StableGraph::edge_references`, which yields every edge
/// exactly once, with the source and target it was inserted with.
#[verifier::external_body]
pub(crate) fn g_edge_list(g: &MoleculeGraph) -> (r: Vec<(usize, usize, u8)>)
    ensures
        r@.map_values(|t: (usize, usize, u8)| (t.0 as int, t.1 as int, t.2)).to_multiset()
            == graph_edges(*g),
        forall|k: int|
            0 <= k < r@.len() ==> graph_edges(*g).count(
                ((#[trigger] r@[k]).0 as int, r@[k].1 as int, r@[k].2),
            ) > 0,
{
    g.edge_references().map(|e| (e.source().index(), e.target().index(), *e.weight())).collect()
}

} // verus!
