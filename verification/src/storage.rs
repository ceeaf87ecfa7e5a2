//! The `petgraph` graph that holds the nodes and edges, and what this library
//! takes for granted of it.
//!
//! Nothing here is proved. The graph is a value that the verifier cannot look
//! into; `graph_nodes` and `graph_edges` name what it holds, and each function
//! below states, in those terms, what the `petgraph` method that it calls does.
//! Nodes and edges are known by their position, an index of 32 bits, as in
//! `petgraph`'s `NodeIndex` and `EdgeIndex`.

use vstd::prelude::*;
use petgraph::graph::EdgeIndex;
use petgraph::graph::Graph;
use petgraph::graph::NodeIndex;
use petgraph::Directed;
use crate::types::PriceEdge;
use crate::types::TokenNode;

verus! {

/// `petgraph::graph::Graph`, taken as a value that cannot be looked into.
#[verifier::external_type_specification]
#[verifier::external_body]
#[verifier::reject_recursive_types(N)]
#[verifier::reject_recursive_types(E)]
#[verifier::reject_recursive_types(Ty)]
#[verifier::reject_recursive_types(Ix)]
pub struct ExGraph<N, E, Ty, Ix>(Graph<N, E, Ty, Ix>);

/// `petgraph::Directed`, the mark of a graph whose edges have a direction.
#[verifier::external_type_specification]
#[verifier::external_body]
pub struct ExDirected(Directed);

/// The directed graph of token nodes and price edges.
pub type TokenGraph = Graph<TokenNode, PriceEdge, Directed, u32>;

/// An edge as the graph stores it: its weight and the two nodes it joins.
pub struct StoredEdge {
    pub source: int,
    pub target: int,
    pub weight: PriceEdge,
}

/// The weights of the graph's nodes, in the order of their indices.
pub uninterp spec fn graph_nodes(g: TokenGraph) -> Seq<TokenNode>;

/// The graph's edges, in the order of their indices.
pub uninterp spec fn graph_edges(g: TokenGraph) -> Seq<StoredEdge>;

/// `Graph::new`: a graph without nodes or edges.
#[verifier::external_body]
pub(crate) fn graph_new() -> (g: TokenGraph)
    ensures
        graph_nodes(g) == Seq::<TokenNode>::empty(),
        graph_edges(g) == Seq::<StoredEdge>::empty(),
{
    Graph::new()
}

/// `Graph::node_count`: the number of nodes.
#[verifier::external_body]
pub(crate) fn graph_node_count(g: &TokenGraph) -> (n: usize)
    ensures
        n == graph_nodes(*g).len(),
{
    g.node_count()
}

/// `Graph::edge_count`: the number of edges.
#[verifier::external_body]
pub(crate) fn graph_edge_count(g: &TokenGraph) -> (n: usize)
    ensures
        n == graph_edges(*g).len(),
{
    g.edge_count()
}

/// `Graph::add_node`: the node is added behind the others and its index, the
/// number of nodes before the call, is returned. `petgraph` panics where that
/// number is the largest value of the index type; `requires` leaves that out.
#[verifier::external_body]
pub(crate) fn graph_add_node(g: &mut TokenGraph, weight: TokenNode) -> (id: u32)
    requires
        graph_nodes(*old(g)).len() < u32::MAX,
    ensures
        graph_nodes(*final(g)) == graph_nodes(*old(g)).push(weight),
        graph_edges(*final(g)) == graph_edges(*old(g)),
        id == graph_nodes(*old(g)).len(),
{
    g.add_node(weight).index() as u32
}

/// `Graph::add_edge`: the edge from `a` to `b` is added behind the others and
/// its index, the number of edges before the call, is returned. `petgraph`
/// panics where a node does not exist or the number of edges is the largest
/// value of the index type; `requires` leaves both out.
#[verifier::external_body]
pub(crate) fn graph_add_edge(g: &mut TokenGraph, a: u32, b: u32, weight: PriceEdge) -> (id: u32)
    requires
        a < graph_nodes(*old(g)).len(),
        b < graph_nodes(*old(g)).len(),
        graph_edges(*old(g)).len() < u32::MAX,
    ensures
        graph_nodes(*final(g)) == graph_nodes(*old(g)),
        graph_edges(*final(g)) == graph_edges(*old(g)).push(
            StoredEdge { source: a as int, target: b as int, weight },
        ),
        id == graph_edges(*old(g)).len(),
{
    g.add_edge(NodeIndex::new(a as usize), NodeIndex::new(b as usize), weight).index() as u32
}

/// `Graph::node_weight`: the weight of node `a`, or `None` where the graph has
/// no such node.
#[verifier::external_body]
pub(crate) fn graph_node_weight(g: &TokenGraph, a: u32) -> (r: Option<&TokenNode>)
    ensures
        match r {
            Some(w) => a < graph_nodes(*g).len() && *w == graph_nodes(*g)[a as int],
            None => a >= graph_nodes(*g).len(),
        },
{
    g.node_weight(NodeIndex::new(a as usize))
}

/// `Graph::edge_weight`: the weight of edge `e`, or `None` where the graph has
/// no such edge.
#[verifier::external_body]
pub(crate) fn graph_edge_weight(g: &TokenGraph, e: u32) -> (r: Option<&PriceEdge>)
    ensures
        match r {
            Some(w) => e < graph_edges(*g).len() && *w == graph_edges(*g)[e as int].weight,
            None => e >= graph_edges(*g).len(),
        },
{
    g.edge_weight(EdgeIndex::new(e as usize))
}

/// `Graph::edge_endpoints`: the source and the target of edge `e`, or `None`
/// where the graph has no such edge.
#[verifier::external_body]
pub(crate) fn graph_edge_endpoints(g: &TokenGraph, e: u32) -> (r: Option<(u32, u32)>)
    ensures
        match r {
            Some(ends) => e < graph_edges(*g).len() && ends.0 == graph_edges(*g)[e as int].source
                && ends.1 == graph_edges(*g)[e as int].target,
            None => e >= graph_edges(*g).len(),
        },
{
    match g.edge_endpoints(EdgeIndex::new(e as usize)) {
        Some((a, b)) => Some((a.index() as u32, b.index() as u32)),
        None => None,
    }
}

/// `Graph::edge_weight_mut`, and a store through the reference it gives: edge
/// `e` gets the new weight and keeps its place and its two nodes. Where the
/// graph has no such edge nothing changes.
#[verifier::external_body]
pub(crate) fn graph_set_edge_weight(g: &mut TokenGraph, e: u32, weight: PriceEdge)
    ensures
        graph_nodes(*final(g)) == graph_nodes(*old(g)),
        graph_edges(*final(g)) == if e < graph_edges(*old(g)).len() {
            graph_edges(*old(g)).update(
                e as int,
                StoredEdge {
                    source: graph_edges(*old(g))[e as int].source,
                    target: graph_edges(*old(g))[e as int].target,
                    weight,
                },
            )
        } else {
            graph_edges(*old(g))
        },
{
    if let Some(slot) = g.edge_weight_mut(EdgeIndex::new(e as usize)) {
        *slot = weight;
    }
}

} // verus!
