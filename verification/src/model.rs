//! The graph as a mathematical value, and what each operation makes of it.
//!
//! `GraphView` is what an `ArbitrageGraph` stands for. The functions of this
//! file say, over such values, what a new pool and a new state of a known pool
//! do to the graph and when they are turned down.

use vstd::prelude::*;
use crate::catalog::catalog_nodes;
use crate::catalog::catalog_symbol_order;
use crate::protocol::protocol_named;
use crate::types::quoted_price;
use crate::types::ChainTokensView;
use crate::types::BlockUpdateView;
use crate::types::GraphError;
use crate::types::NewPairView;
use crate::types::PriceEdgeView;
use crate::types::ProtocolComponentView;
use crate::types::QuoteView;
use crate::types::RejectionView;
use crate::types::StateUpdateView;
use crate::types::TokenNodeView;

verus! {

/// The most nodes, and the most edges, that a graph holds: indices have 32
/// bits and the largest value is kept free.
pub open spec fn capacity() -> int {
    0xffff_ffff
}

/// An edge with the indices of the nodes it leaves and enters.
pub struct EdgeView {
    pub source: int,
    pub target: int,
    pub weight: PriceEdgeView,
}

/// What an `ArbitrageGraph` stands for.
pub struct GraphView {
    /// The nodes, by index.
    pub nodes: Seq<TokenNodeView>,
    /// The edges, by index.
    pub edges: Seq<EdgeView>,
    /// From symbol to the index of its node.
    pub node_index: Map<Seq<char>, u32>,
    /// From pool address to the indices of the pool's edges.
    pub pool_index: Map<Seq<char>, Seq<u32>>,
}

/// Whether two edges are the two directions of one pool.
pub open spec fn mirrored(a: EdgeView, b: EdgeView) -> bool {
    &&& a.source == b.target
    &&& a.target == b.source
    &&& a.weight.from_token == b.weight.to_token
    &&& a.weight.to_token == b.weight.from_token
    &&& a.weight.chain_id == b.weight.chain_id
    &&& a.weight.protocol == b.weight.protocol
}

/// Whether an edge carries the price that its own state quotes for its
/// direction.
pub open spec fn priced_by_state(e: EdgeView) -> bool {
    quoted_price(e.weight.state, e.weight.from_token.address, e.weight.to_token.address) == Some(
        e.weight.price,
    )
}

impl GraphView {
    /// The graph without nodes, edges or index entries.
    pub open spec fn empty() -> GraphView {
        GraphView {
            nodes: Seq::empty(),
            edges: Seq::empty(),
            node_index: Map::empty(),
            pool_index: Map::empty(),
        }
    }

    /// Every edge joins two nodes of the graph, each of which has the symbol of
    /// the edge's token at that end.
    pub open spec fn edges_join_nodes(self) -> bool {
        forall|i: int|
            0 <= i < self.edges.len() ==> {
                let e = #[trigger] self.edges[i];
                &&& 0 <= e.source < self.nodes.len()
                &&& 0 <= e.target < self.nodes.len()
                &&& self.nodes[e.source].symbol == e.weight.from_token.symbol
                &&& self.nodes[e.target].symbol == e.weight.to_token.symbol
            }
    }

    /// The symbol index holds exactly the symbols of the nodes, each with the
    /// index of its node. So no two nodes share a symbol.
    pub open spec fn node_index_exact(self) -> bool {
        &&& forall|s: Seq<char>| #[trigger]
            self.node_index.contains_key(s) ==> self.node_index[s] < self.nodes.len()
                && self.nodes[self.node_index[s] as int].symbol == s
        &&& forall|i: int|
            0 <= i < self.nodes.len() ==> self.node_index.contains_key(
                #[trigger] self.nodes[i].symbol,
            ) && self.node_index[self.nodes[i].symbol] == i
    }

    /// Under each pool address the pool index holds two edges of the graph,
    /// both with that address, that are the two directions of the pool.
    pub open spec fn pool_index_sound(self) -> bool {
        forall|a: Seq<char>| #[trigger]
            self.pool_index.contains_key(a) ==> {
                let ids = self.pool_index[a];
                &&& ids.len() == 2
                &&& ids[0] != ids[1]
                &&& ids[0] < self.edges.len()
                &&& ids[1] < self.edges.len()
                &&& self.edges[ids[0] as int].weight.pool_address == a
                &&& self.edges[ids[1] as int].weight.pool_address == a
                &&& mirrored(self.edges[ids[0] as int], self.edges[ids[1] as int])
            }
    }

    /// The graph is well formed.
    pub open spec fn wf(self) -> bool {
        &&& self.nodes.len() <= capacity()
        &&& self.edges.len() <= capacity()
        &&& self.edges_join_nodes()
        &&& self.node_index_exact()
        &&& self.pool_index_sound()
    }

    /// The two edges of every pool carry one and the same state, and each the
    /// price that this state quotes for its direction.
    pub open spec fn pools_consistent(self) -> bool {
        forall|a: Seq<char>| #[trigger]
            self.pool_index.contains_key(a) ==> {
                let first = self.edges[self.pool_index[a][0] as int];
                let second = self.edges[self.pool_index[a][1] as int];
                &&& first.weight.state == second.weight.state
                &&& priced_by_state(first)
                &&& priced_by_state(second)
            }
    }
}

/// Why the graph `g` turns a catalog down, if it does: the graph was filled
/// before, or the catalog has more symbols than the graph can hold nodes.
pub open spec fn initialize_refusal(g: GraphView, catalog: Seq<ChainTokensView>) -> Option<
    GraphError,
> {
    if g.nodes.len() > 0 || g.edges.len() > 0 {
        Some(GraphError::AlreadyInitialized)
    } else if catalog_nodes(catalog).len() > capacity() {
        Some(GraphError::CapacityExceeded)
    } else {
        None
    }
}

/// The graph that a catalog gives: the catalog's nodes, each indexed by its
/// symbol, and no edge.
pub open spec fn initial_graph(catalog: Seq<ChainTokensView>) -> GraphView {
    GraphView {
        nodes: catalog_nodes(catalog),
        edges: Seq::empty(),
        node_index: Map::new(
            |s: Seq<char>| catalog_symbol_order(catalog).contains(s),
            |s: Seq<char>| catalog_symbol_order(catalog).index_of(s) as u32,
        ),
        pool_index: Map::empty(),
    }
}

/// The edge that a pool gives for converting its token `from` into its token
/// `to`, priced by `state`.
pub open spec fn pool_edge(
    g: GraphView,
    pair: ProtocolComponentView,
    state: Seq<QuoteView>,
    from: int,
    to: int,
) -> EdgeView {
    EdgeView {
        source: g.node_index[pair.tokens[from].symbol] as int,
        target: g.node_index[pair.tokens[to].symbol] as int,
        weight: PriceEdgeView {
            chain_id: pair.chain_id,
            protocol: protocol_named(pair.protocol_system)->0,
            pool_address: pair.id,
            state,
            to_token: pair.tokens[to],
            from_token: pair.tokens[from],
            price: quoted_price(state, pair.tokens[from].address, pair.tokens[to].address)->0,
        },
    }
}

/// Why the graph `g` turns the pool `pair` with the state `state` down, if it
/// does. The first reason that applies is given.
pub open spec fn new_pair_refusal(
    g: GraphView,
    pair: ProtocolComponentView,
    state: Seq<QuoteView>,
) -> Option<GraphError> {
    if pair.tokens.len() != 2 {
        Some(GraphError::UnsupportedTokenCount)
    } else if protocol_named(pair.protocol_system) is None {
        Some(GraphError::UnknownProtocol)
    } else if !g.node_index.contains_key(pair.tokens[0].symbol) || !g.node_index.contains_key(
        pair.tokens[1].symbol,
    ) {
        Some(GraphError::UnknownToken)
    } else if quoted_price(state, pair.tokens[0].address, pair.tokens[1].address) is None
        || quoted_price(state, pair.tokens[1].address, pair.tokens[0].address) is None {
        Some(GraphError::PricingFailed)
    } else if g.edges.len() + 2 > capacity() {
        Some(GraphError::CapacityExceeded)
    } else {
        None
    }
}

/// The graph `g` after the pool `pair` was taken in with the state `state`:
/// two edges more, one for each direction, and the pool's address indexed to
/// the two. Where the pool is turned down, `g` itself.
pub open spec fn with_new_pair(
    g: GraphView,
    pair: ProtocolComponentView,
    state: Seq<QuoteView>,
) -> GraphView {
    if new_pair_refusal(g, pair, state) is Some {
        g
    } else {
        GraphView {
            nodes: g.nodes,
            edges: g.edges.push(pool_edge(g, pair, state, 0, 1)).push(
                pool_edge(g, pair, state, 1, 0),
            ),
            node_index: g.node_index,
            pool_index: g.pool_index.insert(
                pair.id,
                seq![g.edges.len() as u32, (g.edges.len() + 1) as u32],
            ),
        }
    }
}

/// Whether two edge weights stand for the same route: the same pool, chain and
/// protocol, and the same tokens at the same ends.
pub open spec fn same_route(a: PriceEdgeView, b: PriceEdgeView) -> bool {
    &&& a.pool_address == b.pool_address
    &&& a.chain_id == b.chain_id
    &&& a.protocol == b.protocol
    &&& a.from_token == b.from_token
    &&& a.to_token == b.to_token
}

/// The graph `g` with one edge more, from the node `from` to the node `to`.
/// The edge is in no pool's index entry.
pub open spec fn with_edge(g: GraphView, weight: PriceEdgeView, from: int, to: int) -> GraphView {
    GraphView {
        nodes: g.nodes,
        edges: g.edges.push(EdgeView { source: from, target: to, weight }),
        node_index: g.node_index,
        pool_index: g.pool_index,
    }
}

/// The graph `g` with the weight `weight` on the edge `index`, which keeps its
/// place and its two nodes.
pub open spec fn with_edge_weight(g: GraphView, index: int, weight: PriceEdgeView) -> GraphView {
    GraphView {
        nodes: g.nodes,
        edges: g.edges.update(
            index,
            EdgeView { source: g.edges[index].source, target: g.edges[index].target, weight },
        ),
        node_index: g.node_index,
        pool_index: g.pool_index,
    }
}

/// The edge `e` with the state `state` and the price that `state` quotes for
/// the direction of `e`. Nothing else of the edge changes.
pub open spec fn refreshed(e: EdgeView, state: Seq<QuoteView>) -> EdgeView {
    EdgeView {
        source: e.source,
        target: e.target,
        weight: PriceEdgeView {
            chain_id: e.weight.chain_id,
            protocol: e.weight.protocol,
            pool_address: e.weight.pool_address,
            state,
            to_token: e.weight.to_token,
            from_token: e.weight.from_token,
            price: quoted_price(
                state,
                e.weight.from_token.address,
                e.weight.to_token.address,
            )->0,
        },
    }
}

/// Whether `i` is one of the edge indices `ids`.
pub open spec fn lists_edge(ids: Seq<u32>, i: int) -> bool {
    exists|k: int| 0 <= k < ids.len() && #[trigger] ids[k] == i
}

/// Whether `state` quotes a price for the direction of `e`.
pub open spec fn prices(state: Seq<QuoteView>, e: EdgeView) -> bool {
    quoted_price(state, e.weight.from_token.address, e.weight.to_token.address) is Some
}

/// Why the graph `g` turns the state `state` for the pool at `address` down,
/// if it does. A state for a pool that the graph does not know is not turned
/// down: it changes nothing.
pub open spec fn state_update_refusal(
    g: GraphView,
    address: Seq<char>,
    state: Seq<QuoteView>,
) -> Option<GraphError> {
    if g.pool_index.contains_key(address) && exists|k: int|
        0 <= k < g.pool_index[address].len() && !prices(
            state,
            #[trigger] g.edges[g.pool_index[address][k] as int],
        ) {
        Some(GraphError::PricingFailed)
    } else {
        None
    }
}

/// The graph `g` after the pool at `address` got the state `state`: every edge
/// of the pool is refreshed, all else is as it was. Where the graph does not
/// know the pool, or turns the state down, `g` itself.
pub open spec fn with_state_update(
    g: GraphView,
    address: Seq<char>,
    state: Seq<QuoteView>,
) -> GraphView {
    if !g.pool_index.contains_key(address) || state_update_refusal(g, address, state) is Some {
        g
    } else {
        GraphView {
            nodes: g.nodes,
            edges: Seq::new(
                g.edges.len(),
                |i: int|
                    if lists_edge(g.pool_index[address], i) {
                        refreshed(g.edges[i], state)
                    } else {
                        g.edges[i]
                    },
            ),
            node_index: g.node_index,
            pool_index: g.pool_index,
        }
    }
}

/// The graph `g` after the new pools `pairs` were taken in, one after the
/// other. A pool that is turned down is passed over.
pub open spec fn with_new_pairs(g: GraphView, pairs: Seq<NewPairView>) -> GraphView
    decreases pairs.len(),
{
    if pairs.len() == 0 {
        g
    } else {
        with_new_pair(
            with_new_pairs(g, pairs.drop_last()),
            pairs.last().component,
            pairs.last().state,
        )
    }
}

/// The pools among `pairs` that the graph `g` turns down while it takes them
/// in one after the other, each with the reason.
pub open spec fn new_pair_rejections(g: GraphView, pairs: Seq<NewPairView>) -> Seq<RejectionView>
    decreases pairs.len(),
{
    if pairs.len() == 0 {
        Seq::empty()
    } else {
        let before = new_pair_rejections(g, pairs.drop_last());
        match new_pair_refusal(
            with_new_pairs(g, pairs.drop_last()),
            pairs.last().component,
            pairs.last().state,
        ) {
            Some(reason) => before.push(
                RejectionView { address: pairs.last().component.id, reason },
            ),
            None => before,
        }
    }
}

/// The graph `g` after the state updates `updates` were applied, one after
/// the other. An update that is turned down is passed over.
pub open spec fn with_state_updates(g: GraphView, updates: Seq<StateUpdateView>) -> GraphView
    decreases updates.len(),
{
    if updates.len() == 0 {
        g
    } else {
        with_state_update(
            with_state_updates(g, updates.drop_last()),
            updates.last().address,
            updates.last().state,
        )
    }
}

/// The updates among `updates` that the graph `g` turns down while it applies
/// them one after the other, each with the reason.
pub open spec fn state_update_rejections(g: GraphView, updates: Seq<StateUpdateView>) -> Seq<
    RejectionView,
>
    decreases updates.len(),
{
    if updates.len() == 0 {
        Seq::empty()
    } else {
        let before = state_update_rejections(g, updates.drop_last());
        match state_update_refusal(
            with_state_updates(g, updates.drop_last()),
            updates.last().address,
            updates.last().state,
        ) {
            Some(reason) => before.push(RejectionView { address: updates.last().address, reason }),
            None => before,
        }
    }
}

/// The graph `g` after a block update: first the new pools, then the state
/// updates.
pub open spec fn with_block_update(g: GraphView, msg: BlockUpdateView) -> GraphView {
    with_state_updates(with_new_pairs(g, msg.new_pairs), msg.states)
}

/// What the graph `g` turns down of a block update: first of the new pools,
/// then of the state updates.
pub open spec fn block_update_rejections(g: GraphView, msg: BlockUpdateView) -> Seq<RejectionView> {
    new_pair_rejections(g, msg.new_pairs) + state_update_rejections(
        with_new_pairs(g, msg.new_pairs),
        msg.states,
    )
}

} // verus!
