//! The arbitrage graph: token nodes, price edges and the two indexes that
//! serve the updates.

use vstd::prelude::*;
use crate::catalog::{
    catalog_nodes, catalog_symbol_order, group_by_symbol, lemma_symbol_order, node_views,
};
use crate::index::TextMap;
use crate::laws::{
    lemma_edge_keeps_invariants, lemma_edge_weight_keeps_wf, lemma_new_pair_keeps_invariants,
    lemma_state_update_keeps_invariants,
};
use crate::model::{
    block_update_rejections, capacity, initial_graph, initialize_refusal, lists_edge,
    new_pair_refusal, new_pair_rejections, pool_edge, prices, refreshed, same_route,
    state_update_refusal, state_update_rejections, with_block_update, with_edge,
    with_edge_weight, with_new_pair, with_new_pairs, with_state_update, with_state_updates,
    EdgeView, GraphView,
};
use crate::protocol::Protocol;
use crate::snapshot::{record_views, snapshot, sorted_records};
use crate::storage::{
    graph_add_edge, graph_add_node, graph_edge_count, graph_edge_endpoints, graph_edge_weight,
    graph_edges, graph_new, graph_node_count, graph_node_weight, graph_nodes,
    graph_set_edge_weight, StoredEdge, TokenGraph,
};
use crate::types::{
    catalog_view, rejection_views, BlockUpdate, ChainTokens, EdgeRecord, GraphError, NewPair,
    PoolState, PriceEdge, ProtocolComponent, Rejection, RejectionView, StateUpdate, Token,
    TokenNode,
};

verus! {

/// The directed multigraph of tokens and priced routes, with its symbol index
/// and its pool index.
pub struct ArbitrageGraph {
    graph: TokenGraph,
    nodes_map: TextMap<u32>,
    edges_map: TextMap<Vec<u32>>,
}

/// The view of a stored edge.
pub open spec fn stored_edge_view(e: StoredEdge) -> EdgeView {
    EdgeView { source: e.source, target: e.target, weight: e.weight@ }
}

impl View for ArbitrageGraph {
    type V = GraphView;

    closed spec fn view(&self) -> GraphView {
        GraphView {
            nodes: graph_nodes(self.graph).map_values(|n: TokenNode| n@),
            edges: graph_edges(self.graph).map_values(|e: StoredEdge| stored_edge_view(e)),
            node_index: self.nodes_map@,
            pool_index: self.edges_map@.map_values(|ids: Vec<u32>| ids@),
        }
    }
}

impl ArbitrageGraph {
    /// The graph is well formed: its indexes and its view are.
    pub closed spec fn wf(&self) -> bool {
        &&& self.nodes_map.wf()
        &&& self.edges_map.wf()
        &&& self@.wf()
    }

    /// The view of a well-formed graph is well formed.
    pub proof fn lemma_view_wf(&self)
        requires
            self.wf(),
        ensures
            self@.wf(),
    {
    }

    /// A graph without nodes or edges.
    pub fn new() -> (r: Self)
        ensures
            r.wf(),
            r@ == GraphView::empty(),
    {
        let r = ArbitrageGraph {
            graph: graph_new(),
            nodes_map: TextMap::new(),
            edges_map: TextMap::new(),
        };
        proof {
            assert(r@.nodes =~= Seq::empty());
            assert(r@.edges =~= Seq::empty());
            assert(r@.pool_index =~= Map::empty());
        }
        r
    }

    /// Fills an empty graph from a token catalog: one node for each symbol of
    /// the catalog, holding the symbol's token on every chain, and no edge.
    /// A graph that has nodes or edges already, and a catalog of more symbols
    /// than the graph can hold, are turned down and the graph is left as it
    /// was.
    pub fn initialize(&mut self, chain_tokens: Vec<ChainTokens>) -> (r: Result<(), GraphError>)
        requires
            old(self).wf(),
        ensures
            final(self).wf(),
            match r {
                Ok(()) => initialize_refusal(old(self)@, catalog_view(chain_tokens@)) is None
                    && final(self)@ == initial_graph(catalog_view(chain_tokens@)),
                Err(e) => initialize_refusal(old(self)@, catalog_view(chain_tokens@)) == Some(e)
                    && final(self)@ == old(self)@,
            },
    {
        let ghost cat = catalog_view(chain_tokens@);
        let ghost order = catalog_symbol_order(cat);
        if graph_node_count(&self.graph) > 0 || graph_edge_count(&self.graph) > 0 {
            return Err(GraphError::AlreadyInitialized);
        }
        let groups = group_by_symbol(&chain_tokens);
        if groups.len() > 0xffff_ffff {
            return Err(GraphError::CapacityExceeded);
        }
        let ghost all = groups@;
        proof {
            lemma_symbol_order(cat);
            // A well-formed graph without nodes and edges has empty indexes.
            assert(self@.node_index =~= Map::<Seq<char>, u32>::empty()) by {
                assert forall|s: Seq<char>| !self@.node_index.contains_key(s) by {}
            }
            assert(self@.pool_index =~= Map::<Seq<char>, Seq<u32>>::empty()) by {
                assert forall|a: Seq<char>| !self@.pool_index.contains_key(a) by {}
            }
            assert(graph_nodes(self.graph) =~= Seq::<TokenNode>::empty());
            assert(graph_edges(self.graph) =~= Seq::<StoredEdge>::empty());
            assert(node_views(all).len() == catalog_nodes(cat).len());
        }
        for node in it: groups
            invariant
                it.seq() == all,
                node_views(all) == catalog_nodes(cat),
                order == catalog_symbol_order(cat),
                order.no_duplicates(),
                all.len() <= 0xffff_ffff,
                all.len() == order.len(),
                self.nodes_map.wf(),
                self.edges_map.wf(),
                self.edges_map@ == old(self).edges_map@,
                graph_nodes(self.graph) == all.take(it.index() as int),
                graph_edges(self.graph) == Seq::<StoredEdge>::empty(),
                forall|k: int|
                    0 <= k < it.index() ==> self.nodes_map@.contains_key(#[trigger] order[k])
                        && self.nodes_map@[order[k]] == k,
                forall|s: Seq<char>| #[trigger]
                    self.nodes_map@.contains_key(s) ==> exists|k: int|
                        0 <= k < it.index() && order[k] == s,
        {
            let ghost k = it.index() as int;
            let ghost indexed = self.nodes_map@;
            proof {
                assert(0 <= k < all.len());
                assert(node == all[k]);
                assert(node_views(all)[k] == catalog_nodes(cat)[k]);
                assert(node@.symbol == order[k]);
            }
            let symbol = node.symbol.clone();
            let id = graph_add_node(&mut self.graph, node);
            self.nodes_map.insert(symbol, id);
            proof {
                assert(all.take(k + 1) =~= all.take(k).push(node));
                assert forall|s: Seq<char>| #[trigger]
                    self.nodes_map@.contains_key(s) implies exists|j: int|
                    0 <= j < k + 1 && order[j] == s by {
                    if s != order[k] {
                        assert(indexed.contains_key(s));
                        let j = choose|j: int| 0 <= j < k && order[j] == s;
                        assert(0 <= j < k + 1 && order[j] == s);
                    }
                }
            }
        }
        proof {
            assert(all.take(all.len() as int) =~= all);
            let target = initial_graph(cat);
            assert(self@.nodes =~= target.nodes);
            assert(self@.edges =~= target.edges);
            assert(self@.pool_index =~= target.pool_index);
            assert forall|s: Seq<char>| self@.node_index.contains_key(s) == order.contains(
                s,
            ) by {
                if order.contains(s) {
                    let j = choose|j: int| 0 <= j < order.len() && order[j] == s;
                    assert(self.nodes_map@.contains_key(order[j]));
                }
            }
            assert forall|s: Seq<char>| order.contains(s) implies self@.node_index[s]
                == order.index_of(s) as u32 by {
                let j = order.index_of(s);
                assert(self.nodes_map@.contains_key(order[j]));
            }
            assert(self@.node_index =~= target.node_index);
            assert(self@.node_index_exact()) by {
                assert forall|s: Seq<char>| #[trigger]
                    self@.node_index.contains_key(s) implies self@.node_index[s]
                    < self@.nodes.len() && self@.nodes[self@.node_index[s] as int].symbol
                    == s by {
                    let j = choose|j: int| 0 <= j < all.len() && order[j] == s;
                    assert(self.nodes_map@[order[j]] == j);
                }
                assert forall|i: int| 0 <= i < self@.nodes.len() implies self@.node_index.contains_key(
                    #[trigger] self@.nodes[i].symbol,
                ) && self@.node_index[self@.nodes[i].symbol] == i by {
                    assert(self@.nodes[i].symbol == order[i]);
                }
            }
        }
        Ok(())
    }

    /// Adds an edge from the node `from` to the node `to` and returns its
    /// index. The edge enters no pool's index entry.
    pub fn add_edge(&mut self, edge: PriceEdge, from: u32, to: u32) -> (id: u32)
        requires
            old(self).wf(),
            from < old(self)@.nodes.len(),
            to < old(self)@.nodes.len(),
            old(self)@.edges.len() < capacity(),
            old(self)@.nodes[from as int].symbol == edge@.from_token.symbol,
            old(self)@.nodes[to as int].symbol == edge@.to_token.symbol,
        ensures
            final(self).wf(),
            id == old(self)@.edges.len(),
            final(self)@ == with_edge(old(self)@, edge@, from as int, to as int),
            old(self)@.pools_consistent() ==> final(self)@.pools_consistent(),
    {
        let ghost before = self@;
        let ghost weight = edge@;
        let id = graph_add_edge(&mut self.graph, from, to, edge);
        proof {
            let target = with_edge(before, weight, from as int, to as int);
            assert(self@.nodes =~= target.nodes);
            assert(self@.edges =~= target.edges);
            lemma_edge_keeps_invariants(before, weight, from as int, to as int);
        }
        id
    }

    /// Puts the weight `edge` on the edge `index`. The edge keeps its place,
    /// its two nodes and its route.
    pub fn update_edge(&mut self, index: u32, edge: PriceEdge)
        requires
            old(self).wf(),
            index < old(self)@.edges.len(),
            same_route(edge@, old(self)@.edges[index as int].weight),
        ensures
            final(self).wf(),
            final(self)@ == with_edge_weight(old(self)@, index as int, edge@),
    {
        let ghost before = self@;
        let ghost weight = edge@;
        graph_set_edge_weight(&mut self.graph, index, edge);
        proof {
            let target = with_edge_weight(before, index as int, weight);
            assert(self@.nodes =~= target.nodes);
            assert(self@.edges =~= target.edges);
            lemma_edge_weight_keeps_wf(before, index as int, weight);
        }
    }

    /// Takes in a pool seen for the first time: two edges, one for each
    /// direction, each with its own price out of `state` and its own copy of
    /// `state`, and the pool's address indexed to the two.
    ///
    /// A pool is turned down, and the graph left as it was, where it does not
    /// trade exactly two tokens, names an unknown protocol, trades a token
    /// whose symbol has no node, where `state` lacks the price of a direction,
    /// or where the graph has no room for two more edges.
    pub fn handle_new_pair(&mut self, pair: ProtocolComponent, state: PoolState) -> (r: Result<
        (),
        GraphError,
    >)
        requires
            old(self).wf(),
        ensures
            final(self).wf(),
            final(self)@ == with_new_pair(old(self)@, pair@, state@),
            match r {
                Ok(()) => new_pair_refusal(old(self)@, pair@, state@) is None,
                Err(e) => new_pair_refusal(old(self)@, pair@, state@) == Some(e),
            },
            old(self)@.pools_consistent() ==> final(self)@.pools_consistent(),
    {
        let ghost before = self@;
        if pair.tokens.len() != 2 {
            return Err(GraphError::UnsupportedTokenCount);
        }
        proof {
            assert(pair@.tokens[0] == pair.tokens@[0]@);
            assert(pair@.tokens[1] == pair.tokens@[1]@);
        }
        let protocol = match Protocol::from_str(pair.protocol_system.as_str()) {
            Some(p) => p,
            None => {
                return Err(GraphError::UnknownProtocol);
            },
        };
        let from_node: u32 = match self.nodes_map.get(&pair.tokens[0].symbol) {
            Some(id) => *id,
            None => {
                return Err(GraphError::UnknownToken);
            },
        };
        let to_node: u32 = match self.nodes_map.get(&pair.tokens[1].symbol) {
            Some(id) => *id,
            None => {
                return Err(GraphError::UnknownToken);
            },
        };
        let forward: u64 = match state.spot_price(&pair.tokens[0], &pair.tokens[1]) {
            Some(p) => p,
            None => {
                return Err(GraphError::PricingFailed);
            },
        };
        let backward: u64 = match state.spot_price(&pair.tokens[1], &pair.tokens[0]) {
            Some(p) => p,
            None => {
                return Err(GraphError::PricingFailed);
            },
        };
        if graph_edge_count(&self.graph) > 0xffff_ffff - 2 {
            return Err(GraphError::CapacityExceeded);
        }
        let first = PriceEdge {
            chain_id: pair.chain_id,
            protocol,
            pool_address: pair.id.clone(),
            state: state.clone(),
            to_token: pair.tokens[1].clone(),
            from_token: pair.tokens[0].clone(),
            price: forward,
        };
        let second = PriceEdge {
            chain_id: pair.chain_id,
            protocol,
            pool_address: pair.id.clone(),
            state,
            to_token: pair.tokens[0].clone(),
            from_token: pair.tokens[1].clone(),
            price: backward,
        };
        proof {
            assert(pool_edge(before, pair@, state@, 0, 1) == (EdgeView {
                source: from_node as int,
                target: to_node as int,
                weight: first@,
            }));
            assert(pool_edge(before, pair@, state@, 1, 0) == (EdgeView {
                source: to_node as int,
                target: from_node as int,
                weight: second@,
            }));
        }
        let first_id = self.add_edge(first, from_node, to_node);
        let second_id = self.add_edge(second, to_node, from_node);
        let mut ids: Vec<u32> = Vec::new();
        ids.push(first_id);
        ids.push(second_id);
        self.edges_map.insert(pair.id, ids);
        proof {
            let target = with_new_pair(before, pair@, state@);
            assert(ids@ =~= seq![before.edges.len() as u32, (before.edges.len() + 1) as u32]);
            assert(self@.pool_index =~= target.pool_index);
            assert(self@.edges =~= target.edges);
            lemma_new_pair_keeps_invariants(before, pair@, state@);
        }
        Ok(())
    }

    /// The weight that the edge `index` gets from the pool state `state`: the
    /// state itself and the price that it quotes for the edge's direction.
    /// `None` where `state` has no such price.
    fn repriced(&self, index: u32, state: &PoolState) -> (r: Option<PriceEdge>)
        requires
            index < self@.edges.len(),
        ensures
            match r {
                Some(w) => prices(state@, self@.edges[index as int]) && w@ == refreshed(
                    self@.edges[index as int],
                    state@,
                ).weight,
                None => !prices(state@, self@.edges[index as int]),
            },
    {
        match graph_edge_weight(&self.graph, index) {
            Some(current) => {
                match state.spot_price(&current.from_token, &current.to_token) {
                    Some(price) => Some(
                        PriceEdge {
                            chain_id: current.chain_id,
                            protocol: current.protocol,
                            pool_address: current.pool_address.clone(),
                            state: state.clone(),
                            to_token: current.to_token.clone(),
                            from_token: current.from_token.clone(),
                            price,
                        },
                    ),
                    None => None,
                }
            },
            None => None,
        }
    }

    /// Gives the edge `idx` the pool state `state` and the price that `state`
    /// quotes for the edge's direction, both at once. Where `state` has no
    /// such price the edge is left as it was.
    pub fn update_edge_weight(&mut self, idx: u32, state: PoolState) -> (r: Result<(), GraphError>)
        requires
            old(self).wf(),
            idx < old(self)@.edges.len(),
        ensures
            final(self).wf(),
            match r {
                Ok(()) => prices(state@, old(self)@.edges[idx as int]) && final(self)@
                    == with_edge_weight(
                    old(self)@,
                    idx as int,
                    refreshed(old(self)@.edges[idx as int], state@).weight,
                ),
                Err(e) => e == GraphError::PricingFailed && !prices(
                    state@,
                    old(self)@.edges[idx as int],
                ) && final(self)@ == old(self)@,
            },
    {
        match self.repriced(idx, &state) {
            Some(weight) => {
                self.update_edge(idx, weight);
                Ok(())
            },
            None => Err(GraphError::PricingFailed),
        }
    }

    /// Gives the pool at `address` the state `state`: each edge of the pool
    /// gets the state and the price that it quotes for the edge's direction.
    /// Returns the number of edges that were refreshed.
    ///
    /// A pool that the graph does not know changes nothing and is no error.
    /// Where `state` lacks the price of one of the pool's edges, no edge is
    /// touched.
    pub fn handle_state_update(&mut self, state: PoolState, address: String) -> (r: Result<
        usize,
        GraphError,
    >)
        requires
            old(self).wf(),
        ensures
            final(self).wf(),
            final(self)@ == with_state_update(old(self)@, address@, state@),
            match r {
                Ok(n) => state_update_refusal(old(self)@, address@, state@) is None && n == (
                if old(self)@.pool_index.contains_key(address@) {
                    old(self)@.pool_index[address@].len()
                } else {
                    0
                }),
                Err(e) => state_update_refusal(old(self)@, address@, state@) == Some(e),
            },
            old(self)@.pools_consistent() ==> final(self)@.pools_consistent(),
    {
        let ghost before = self@;
        let (first_id, second_id): (u32, u32) = match self.edges_map.get(&address) {
            Some(ids) => {
                assert(before.pool_index.contains_key(address@));
                assert(ids@ == before.pool_index[address@]);
                (ids[0], ids[1])
            },
            None => {
                return Ok(0);
            },
        };
        let ghost ids = before.pool_index[address@];
        // Both edges are priced before either is touched.
        let first = match self.repriced(first_id, &state) {
            Some(w) => w,
            None => {
                proof {
                    assert(!prices(state@, before.edges[ids[0] as int]));
                }
                return Err(GraphError::PricingFailed);
            },
        };
        let second = match self.repriced(second_id, &state) {
            Some(w) => w,
            None => {
                proof {
                    assert(!prices(state@, before.edges[ids[1] as int]));
                }
                return Err(GraphError::PricingFailed);
            },
        };
        proof {
            assert forall|k: int| 0 <= k < ids.len() implies prices(
                state@,
                #[trigger] before.edges[ids[k] as int],
            ) by {
                assert(k == 0 || k == 1);
            }
        }
        self.update_edge(first_id, first);
        self.update_edge(second_id, second);
        proof {
            let target = with_state_update(before, address@, state@);
            assert forall|i: int| #[trigger] lists_edge(ids, i) == (i == first_id || i == second_id) by {
                if i == first_id {
                    assert(ids[0] == i);
                }
                if i == second_id {
                    assert(ids[1] == i);
                }
            }
            assert(self@.edges =~= target.edges);
            lemma_state_update_keeps_invariants(before, address@, state@);
        }
        Ok(2)
    }

    /// Applies what one block changed: first every new pool is taken in, then
    /// every state update is applied, each in the order of the message. So a
    /// pool that the message both brings and refreshes ends with the refreshed
    /// state. What the graph turns down is passed over and returned, with the
    /// reason; the rest of the message is applied all the same.
    pub fn handle_block_update(&mut self, msg: BlockUpdate) -> (rejected: Vec<Rejection>)
        requires
            old(self).wf(),
        ensures
            final(self).wf(),
            final(self)@ == with_block_update(old(self)@, msg@),
            rejection_views(rejected@) == block_update_rejections(old(self)@, msg@),
            old(self)@.pools_consistent() ==> final(self)@.pools_consistent(),
    {
        let ghost before = self@;
        let ghost pairs = msg@.new_pairs;
        let ghost updates = msg@.states;
        let mut rejected: Vec<Rejection> = Vec::new();
        let new_pairs = msg.new_pairs;
        let states = msg.states;
        proof {
            assert(pairs.take(0) =~= Seq::empty());
            assert(rejection_views(rejected@) =~= Seq::empty());
        }
        for pair in it: new_pairs
            invariant
                self.wf(),
                pairs == it.seq().map_values(|p: NewPair| p@),
                self@ == with_new_pairs(before, pairs.take(it.index() as int)),
                rejection_views(rejected@) == new_pair_rejections(
                    before,
                    pairs.take(it.index() as int),
                ),
                before.pools_consistent() ==> self@.pools_consistent(),
        {
            let ghost k = it.index() as int;
            let ghost seen = rejected@;
            proof {
                assert(0 <= k < pairs.len());
                assert(pair == it.seq()[k]);
                assert(pairs[k] == pair@);
                assert(pairs.take(k + 1).drop_last() =~= pairs.take(k));
                assert(pairs.take(k + 1).last() == pairs[k]);
            }
            let address = pair.component.id.clone();
            match self.handle_new_pair(pair.component, pair.state) {
                Ok(()) => {},
                Err(reason) => {
                    rejected.push(Rejection { address, reason });
                    proof {
                        assert(rejection_views(rejected@) =~= rejection_views(seen).push(
                            RejectionView { address: pairs[k].component.id, reason },
                        ));
                    }
                },
            }
        }
        let ghost middle = self@;
        let ghost first_part = rejected@;
        proof {
            assert(pairs.take(pairs.len() as int) =~= pairs);
            assert(updates.take(0) =~= Seq::empty());
            assert(rejection_views(rejected@) =~= rejection_views(first_part)
                + Seq::<RejectionView>::empty());
        }
        for update in it: states
            invariant
                self.wf(),
                updates == it.seq().map_values(|u: StateUpdate| u@),
                self@ == with_state_updates(middle, updates.take(it.index() as int)),
                rejection_views(rejected@) == rejection_views(first_part)
                    + state_update_rejections(middle, updates.take(it.index() as int)),
                before.pools_consistent() ==> self@.pools_consistent(),
        {
            let ghost k = it.index() as int;
            let ghost seen = rejected@;
            proof {
                assert(0 <= k < updates.len());
                assert(update == it.seq()[k]);
                assert(updates[k] == update@);
                assert(updates.take(k + 1).drop_last() =~= updates.take(k));
                assert(updates.take(k + 1).last() == updates[k]);
            }
            let address = update.address.clone();
            match self.handle_state_update(update.state, update.address) {
                Ok(_) => {},
                Err(reason) => {
                    rejected.push(Rejection { address, reason });
                    proof {
                        assert(rejection_views(rejected@) =~= rejection_views(seen).push(
                            RejectionView { address: updates[k].address, reason },
                        ));
                        assert(rejection_views(rejected@) =~= rejection_views(first_part)
                            + state_update_rejections(middle, updates.take(k + 1)));
                    }
                },
            }
        }
        proof {
            assert(updates.take(updates.len() as int) =~= updates);
        }
        rejected
    }

    /// The listing of the graph: the record of every edge, ordered by the
    /// symbol of the token that the edge converts, then by the symbol of the
    /// token that it converts into, and among edges of the same two symbols by
    /// age. The graph is not changed, and the same graph gives the same
    /// listing.
    pub fn format_pairs(&self) -> (records: Vec<EdgeRecord>)
        requires
            self.wf(),
        ensures
            record_views(records@) == snapshot(self@),
    {
        sorted_records(self)
    }

    /// The two tokens of the pool at `address`, if the graph knows the pool:
    /// first the token that the pool's first edge converts, then the token
    /// that it converts into. These are the tokens between which a state of
    /// the pool has to quote its prices.
    pub fn pool_tokens(&self, address: &String) -> (r: Option<(Token, Token)>)
        requires
            self.wf(),
        ensures
            match r {
                Some(pair) => self@.pool_index.contains_key(address@) && pair.0@
                    == self@.edges[self@.pool_index[address@][0] as int].weight.from_token
                    && pair.1@
                    == self@.edges[self@.pool_index[address@][0] as int].weight.to_token,
                None => !self@.pool_index.contains_key(address@),
            },
    {
        match self.edges_map.get(address) {
            Some(ids) => {
                assert(self@.pool_index.contains_key(address@));
                assert(ids@ == self@.pool_index[address@]);
                match graph_edge_weight(&self.graph, ids[0]) {
                    Some(e) => Some((e.from_token.clone(), e.to_token.clone())),
                    None => None,
                }
            },
            None => None,
        }
    }

    /// The number of nodes.
    pub fn node_count(&self) -> (n: usize)
        ensures
            n == self@.nodes.len(),
    {
        graph_node_count(&self.graph)
    }

    /// The number of edges.
    pub fn edge_count(&self) -> (n: usize)
        ensures
            n == self@.edges.len(),
    {
        graph_edge_count(&self.graph)
    }

    /// The index of the node that stands for `symbol`, if there is one.
    pub fn node_index(&self, symbol: &String) -> (r: Option<u32>)
        requires
            self.wf(),
        ensures
            r == if self@.node_index.contains_key(symbol@) {
                Some(self@.node_index[symbol@])
            } else {
                None
            },
    {
        match self.nodes_map.get(symbol) {
            Some(id) => Some(*id),
            None => None,
        }
    }

    /// The indices of the edges of the pool at `address`, if the graph knows
    /// the pool.
    pub fn pool_edges(&self, address: &String) -> (r: Option<&Vec<u32>>)
        requires
            self.wf(),
        ensures
            match r {
                Some(ids) => self@.pool_index.contains_key(address@) && ids@
                    == self@.pool_index[address@],
                None => !self@.pool_index.contains_key(address@),
            },
    {
        self.edges_map.get(address)
    }

    /// The node with the index `id`, if there is one.
    pub fn node(&self, id: u32) -> (r: Option<&TokenNode>)
        ensures
            match r {
                Some(n) => id < self@.nodes.len() && n@ == self@.nodes[id as int],
                None => id >= self@.nodes.len(),
            },
    {
        graph_node_weight(&self.graph, id)
    }

    /// The edge with the index `id`, if there is one.
    pub fn edge(&self, id: u32) -> (r: Option<&PriceEdge>)
        ensures
            match r {
                Some(e) => id < self@.edges.len() && e@ == self@.edges[id as int].weight,
                None => id >= self@.edges.len(),
            },
    {
        graph_edge_weight(&self.graph, id)
    }

    /// The indices of the nodes that the edge `id` leaves and enters, if there
    /// is such an edge.
    pub fn edge_endpoints(&self, id: u32) -> (r: Option<(u32, u32)>)
        ensures
            match r {
                Some(ends) => id < self@.edges.len() && ends.0 == self@.edges[id as int].source
                    && ends.1 == self@.edges[id as int].target,
                None => id >= self@.edges.len(),
            },
    {
        graph_edge_endpoints(&self.graph, id)
    }
}

} // verus!
