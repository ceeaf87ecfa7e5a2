//! What holds of the graph whatever is done to it.
//!
//! The laws are stated over `GraphView` and the functions of `model`, in
//! which the operations of `ArbitrageGraph` state what they do.

use vstd::prelude::*;
use crate::model::capacity;
use crate::model::lists_edge;
use crate::model::mirrored;
use crate::model::new_pair_refusal;
use crate::model::pool_edge;
use crate::model::priced_by_state;
use crate::model::prices;
use crate::model::refreshed;
use crate::model::same_route;
use crate::model::state_update_refusal;
use crate::model::with_block_update;
use crate::model::with_edge;
use crate::model::with_edge_weight;
use crate::model::with_new_pair;
use crate::model::with_new_pairs;
use crate::model::with_state_update;
use crate::model::with_state_updates;
use crate::model::GraphView;
use crate::snapshot::is_listing;
use crate::snapshot::key_before;
use crate::snapshot::lemma_listed_before_asymmetric;
use crate::snapshot::lemma_listing_exists;
use crate::snapshot::listing;
use crate::snapshot::snapshot;
use crate::types::quoted_price;
use crate::types::BlockUpdateView;
use crate::types::NewPairView;
use crate::types::PriceEdgeView;
use crate::types::ProtocolComponentView;
use crate::types::QuoteView;
use crate::types::StateUpdateView;

verus! {

/// An edge more, between two nodes that have the symbols of its tokens,
/// leaves a well-formed graph well formed and the pools as consistent as they
/// were.
pub proof fn lemma_edge_keeps_invariants(g: GraphView, weight: PriceEdgeView, from: int, to: int)
    requires
        g.wf(),
        0 <= from < g.nodes.len(),
        0 <= to < g.nodes.len(),
        g.edges.len() < capacity(),
        g.nodes[from].symbol == weight.from_token.symbol,
        g.nodes[to].symbol == weight.to_token.symbol,
    ensures
        with_edge(g, weight, from, to).wf(),
        g.pools_consistent() ==> with_edge(g, weight, from, to).pools_consistent(),
{
    let h = with_edge(g, weight, from, to);
    assert forall|i: int| 0 <= i < g.edges.len() implies h.edges[i] == g.edges[i] by {}
    assert(h.edges_join_nodes()) by {
        assert forall|i: int| 0 <= i < h.edges.len() implies {
            let e = #[trigger] h.edges[i];
            &&& 0 <= e.source < h.nodes.len()
            &&& 0 <= e.target < h.nodes.len()
            &&& h.nodes[e.source].symbol == e.weight.from_token.symbol
            &&& h.nodes[e.target].symbol == e.weight.to_token.symbol
        } by {
            if i < g.edges.len() {
                assert(h.edges[i] == g.edges[i]);
            }
        }
    }
}

/// Another weight on an edge, for the same route, leaves a well-formed graph
/// well formed.
pub proof fn lemma_edge_weight_keeps_wf(g: GraphView, index: int, weight: PriceEdgeView)
    requires
        g.wf(),
        0 <= index < g.edges.len(),
        same_route(weight, g.edges[index].weight),
    ensures
        with_edge_weight(g, index, weight).wf(),
{
    let h = with_edge_weight(g, index, weight);
    assert(h.edges_join_nodes()) by {
        assert forall|i: int| 0 <= i < h.edges.len() implies {
            let e = #[trigger] h.edges[i];
            &&& 0 <= e.source < h.nodes.len()
            &&& 0 <= e.target < h.nodes.len()
            &&& h.nodes[e.source].symbol == e.weight.from_token.symbol
            &&& h.nodes[e.target].symbol == e.weight.to_token.symbol
        } by {
            let o = g.edges[i];
            assert(0 <= o.source < g.nodes.len());
        }
    }
    assert(h.pool_index_sound()) by {
        assert forall|a: Seq<char>| #[trigger] h.pool_index.contains_key(a) implies {
            let ids = h.pool_index[a];
            &&& ids.len() == 2
            &&& ids[0] != ids[1]
            &&& ids[0] < h.edges.len()
            &&& ids[1] < h.edges.len()
            &&& h.edges[ids[0] as int].weight.pool_address == a
            &&& h.edges[ids[1] as int].weight.pool_address == a
            &&& mirrored(h.edges[ids[0] as int], h.edges[ids[1] as int])
        } by {
            assert(g.pool_index.contains_key(a));
        }
    }
}

/// A pool that is taken in gives exactly two edges, one for each direction:
/// the first converts the pool's first token into its second, at the price
/// that the state quotes for that direction, the second the other way round
/// at the price for the other direction. Both carry the state, and the pool
/// index holds exactly the two under the pool's address. Nodes and older
/// edges are as they were.
pub proof fn lemma_new_pair_gives_two_edges(
    g: GraphView,
    pair: ProtocolComponentView,
    state: Seq<QuoteView>,
)
    requires
        g.wf(),
        new_pair_refusal(g, pair, state) is None,
    ensures
        ({
            let h = with_new_pair(g, pair, state);
            let n = g.edges.len() as int;
            &&& h.nodes == g.nodes
            &&& h.node_index == g.node_index
            &&& h.edges.len() == n + 2
            &&& forall|i: int| 0 <= i < n ==> h.edges[i] == g.edges[i]
            &&& h.pool_index.contains_key(pair.id)
            &&& h.pool_index[pair.id] == seq![n as u32, (n + 1) as u32]
            &&& h.edges[n].weight.from_token == pair.tokens[0]
            &&& h.edges[n].weight.to_token == pair.tokens[1]
            &&& h.edges[n + 1].weight.from_token == pair.tokens[1]
            &&& h.edges[n + 1].weight.to_token == pair.tokens[0]
            &&& Some(h.edges[n].weight.price) == quoted_price(
                state,
                pair.tokens[0].address,
                pair.tokens[1].address,
            )
            &&& Some(h.edges[n + 1].weight.price) == quoted_price(
                state,
                pair.tokens[1].address,
                pair.tokens[0].address,
            )
            &&& h.edges[n].weight.state == state
            &&& h.edges[n + 1].weight.state == state
            &&& h.edges[n].weight.pool_address == pair.id
            &&& h.edges[n + 1].weight.pool_address == pair.id
            &&& mirrored(h.edges[n], h.edges[n + 1])
        }),
{
}

/// Taking a pool in, or turning it down, leaves a well-formed graph well
/// formed, and one whose pools are consistent consistent.
pub proof fn lemma_new_pair_keeps_invariants(
    g: GraphView,
    pair: ProtocolComponentView,
    state: Seq<QuoteView>,
)
    requires
        g.wf(),
    ensures
        with_new_pair(g, pair, state).wf(),
        g.pools_consistent() ==> with_new_pair(g, pair, state).pools_consistent(),
{
    let h = with_new_pair(g, pair, state);
    if new_pair_refusal(g, pair, state) is None {
        let n = g.edges.len() as int;
        assert(g.node_index.contains_key(pair.tokens[0].symbol));
        assert(g.node_index.contains_key(pair.tokens[1].symbol));
        assert forall|i: int| 0 <= i < n implies h.edges[i] == g.edges[i] by {}
        assert(h.edges_join_nodes()) by {
            assert forall|i: int| 0 <= i < h.edges.len() implies {
                let e = #[trigger] h.edges[i];
                &&& 0 <= e.source < h.nodes.len()
                &&& 0 <= e.target < h.nodes.len()
                &&& h.nodes[e.source].symbol == e.weight.from_token.symbol
                &&& h.nodes[e.target].symbol == e.weight.to_token.symbol
            } by {
                if i < n {
                    assert(h.edges[i] == g.edges[i]);
                }
            }
        }
        assert forall|a: Seq<char>| #[trigger] h.pool_index.contains_key(a) && a
            != pair.id implies g.pool_index.contains_key(a) && h.pool_index[a] == g.pool_index[a]
            && h.edges[h.pool_index[a][0] as int] == g.edges[g.pool_index[a][0] as int]
            && h.edges[h.pool_index[a][1] as int] == g.edges[g.pool_index[a][1] as int] by {
            assert(g.pool_index.contains_key(a));
        }
        assert(h.pool_index_sound());
        if g.pools_consistent() {
            assert forall|a: Seq<char>| #[trigger] h.pool_index.contains_key(a) implies {
                let first = h.edges[h.pool_index[a][0] as int];
                let second = h.edges[h.pool_index[a][1] as int];
                &&& first.weight.state == second.weight.state
                &&& priced_by_state(first)
                &&& priced_by_state(second)
            } by {
                if a != pair.id {
                    assert(g.pool_index.contains_key(a));
                }
            }
        }
    }
}

/// A state update that is applied reaches every edge of its pool: each gets
/// the new state and the price that the new state quotes for its direction.
/// No edge changes its place, its two nodes or its route, no other edge
/// changes at all, and nodes and indexes are as they were.
pub proof fn lemma_state_update_reaches_the_pool(
    g: GraphView,
    address: Seq<char>,
    state: Seq<QuoteView>,
)
    requires
        g.wf(),
        g.pool_index.contains_key(address),
        state_update_refusal(g, address, state) is None,
    ensures
        ({
            let h = with_state_update(g, address, state);
            &&& h.nodes == g.nodes
            &&& h.node_index == g.node_index
            &&& h.pool_index == g.pool_index
            &&& h.edges.len() == g.edges.len()
            &&& forall|i: int|
                0 <= i < g.edges.len() ==> (#[trigger] h.edges[i]).source == g.edges[i].source
                    && h.edges[i].target == g.edges[i].target && same_route(
                    h.edges[i].weight,
                    g.edges[i].weight,
                )
            &&& forall|i: int|
                0 <= i < g.edges.len() && g.edges[i].weight.pool_address != address
                    ==> #[trigger] h.edges[i] == g.edges[i]
            &&& forall|k: int|
                0 <= k < g.pool_index[address].len() ==> {
                    let e = h.edges[#[trigger] g.pool_index[address][k] as int];
                    e.weight.state == state && priced_by_state(e)
                }
        }),
{
    let h = with_state_update(g, address, state);
    let ids = g.pool_index[address];
    assert forall|i: int|
        0 <= i < g.edges.len() && g.edges[i].weight.pool_address != address implies #[trigger] h.edges[i]
        == g.edges[i] by {
        if lists_edge(ids, i) {
            let k = choose|k: int| 0 <= k < ids.len() && ids[k] == i;
            assert(k == 0 || k == 1);
        }
    }
    assert forall|k: int| 0 <= k < ids.len() implies {
        let e = h.edges[#[trigger] ids[k] as int];
        e.weight.state == state && priced_by_state(e)
    } by {
        assert(k == 0 || k == 1);
        assert(lists_edge(ids, ids[k] as int));
        assert(prices(state, g.edges[ids[k] as int]));
    }
}

/// Applying a state update, or passing it over, leaves a well-formed graph
/// well formed, and one whose pools are consistent consistent.
pub proof fn lemma_state_update_keeps_invariants(
    g: GraphView,
    address: Seq<char>,
    state: Seq<QuoteView>,
)
    requires
        g.wf(),
    ensures
        with_state_update(g, address, state).wf(),
        g.pools_consistent() ==> with_state_update(g, address, state).pools_consistent(),
{
    let h = with_state_update(g, address, state);
    if g.pool_index.contains_key(address) && state_update_refusal(g, address, state) is None {
        lemma_state_update_reaches_the_pool(g, address, state);
        assert(h.edges_join_nodes()) by {
            assert forall|i: int| 0 <= i < h.edges.len() implies {
                let e = #[trigger] h.edges[i];
                &&& 0 <= e.source < h.nodes.len()
                &&& 0 <= e.target < h.nodes.len()
                &&& h.nodes[e.source].symbol == e.weight.from_token.symbol
                &&& h.nodes[e.target].symbol == e.weight.to_token.symbol
            } by {
                let o = g.edges[i];
                assert(0 <= o.source < g.nodes.len());
                assert(same_route(h.edges[i].weight, o.weight));
            }
        }
        assert(h.pool_index_sound()) by {
            assert forall|a: Seq<char>| #[trigger] h.pool_index.contains_key(a) implies {
                let ids = h.pool_index[a];
                &&& ids.len() == 2
                &&& ids[0] != ids[1]
                &&& ids[0] < h.edges.len()
                &&& ids[1] < h.edges.len()
                &&& h.edges[ids[0] as int].weight.pool_address == a
                &&& h.edges[ids[1] as int].weight.pool_address == a
                &&& mirrored(h.edges[ids[0] as int], h.edges[ids[1] as int])
            } by {
                assert(g.pool_index.contains_key(a));
                let ids = g.pool_index[a];
                assert(same_route(h.edges[ids[0] as int].weight, g.edges[ids[0] as int].weight));
                assert(same_route(h.edges[ids[1] as int].weight, g.edges[ids[1] as int].weight));
            }
        }
        if g.pools_consistent() {
            assert forall|a: Seq<char>| #[trigger] h.pool_index.contains_key(a) implies {
                let first = h.edges[h.pool_index[a][0] as int];
                let second = h.edges[h.pool_index[a][1] as int];
                &&& first.weight.state == second.weight.state
                &&& priced_by_state(first)
                &&& priced_by_state(second)
            } by {
                assert(g.pool_index.contains_key(a));
                let ids = g.pool_index[a];
                if a == address {
                    assert(ids[0] == ids[0]);
                    assert(ids[1] == ids[1]);
                } else {
                    assert(h.edges[ids[0] as int] == g.edges[ids[0] as int]);
                    assert(h.edges[ids[1] as int] == g.edges[ids[1] as int]);
                }
            }
        }
    }
}

/// A state update for a pool that the graph does not know is no error and
/// leaves the graph as it was.
pub proof fn lemma_unknown_pool_changes_nothing(
    g: GraphView,
    address: Seq<char>,
    state: Seq<QuoteView>,
)
    requires
        !g.pool_index.contains_key(address),
    ensures
        state_update_refusal(g, address, state) is None,
        with_state_update(g, address, state) == g,
{
}

/// Whatever state updates are applied, in whatever number and whether applied
/// or passed over: nodes and indexes stay as they were, and every edge keeps
/// its place, its two nodes and its route.
pub proof fn lemma_state_updates_keep_identities(g: GraphView, updates: Seq<StateUpdateView>)
    requires
        g.wf(),
    ensures
        ({
            let h = with_state_updates(g, updates);
            &&& h.wf()
            &&& (g.pools_consistent() ==> h.pools_consistent())
            &&& h.nodes == g.nodes
            &&& h.node_index == g.node_index
            &&& h.pool_index == g.pool_index
            &&& h.edges.len() == g.edges.len()
            &&& forall|i: int|
                0 <= i < g.edges.len() ==> (#[trigger] h.edges[i]).source == g.edges[i].source
                    && h.edges[i].target == g.edges[i].target && same_route(
                    h.edges[i].weight,
                    g.edges[i].weight,
                )
        }),
    decreases updates.len(),
{
    if updates.len() > 0 {
        let before = with_state_updates(g, updates.drop_last());
        let last = updates.last();
        lemma_state_updates_keep_identities(g, updates.drop_last());
        lemma_state_update_keeps_invariants(before, last.address, last.state);
        if before.pool_index.contains_key(last.address) && state_update_refusal(
            before,
            last.address,
            last.state,
        ) is None {
            lemma_state_update_reaches_the_pool(before, last.address, last.state);
        }
    }
}

/// After any run of state updates of which the last is for the pool at
/// `address` and is applied, every edge of that pool carries the state of
/// that last update and the price that it quotes for the edge's direction:
/// no edge of the pool is left with an older state.
pub proof fn lemma_latest_state_wins(g: GraphView, updates: Seq<StateUpdateView>)
    requires
        g.wf(),
        updates.len() > 0,
        g.pool_index.contains_key(updates.last().address),
        state_update_refusal(
            with_state_updates(g, updates.drop_last()),
            updates.last().address,
            updates.last().state,
        ) is None,
    ensures
        forall|k: int|
            0 <= k < g.pool_index[updates.last().address].len() ==> {
                let e = with_state_updates(g, updates).edges[#[trigger] g.pool_index[updates.last().address][k] as int];
                e.weight.state == updates.last().state && priced_by_state(e)
            },
{
    let before = with_state_updates(g, updates.drop_last());
    lemma_state_updates_keep_identities(g, updates.drop_last());
    lemma_state_update_reaches_the_pool(before, updates.last().address, updates.last().state);
}

/// Whatever new pools are taken in or turned down, a well-formed graph stays
/// well formed and keeps its nodes, and one whose pools are consistent stays
/// so.
pub proof fn lemma_new_pairs_keep_invariants(g: GraphView, pairs: Seq<NewPairView>)
    requires
        g.wf(),
    ensures
        with_new_pairs(g, pairs).wf(),
        with_new_pairs(g, pairs).nodes == g.nodes,
        with_new_pairs(g, pairs).node_index == g.node_index,
        g.pools_consistent() ==> with_new_pairs(g, pairs).pools_consistent(),
    decreases pairs.len(),
{
    if pairs.len() > 0 {
        lemma_new_pairs_keep_invariants(g, pairs.drop_last());
        lemma_new_pair_keeps_invariants(
            with_new_pairs(g, pairs.drop_last()),
            pairs.last().component,
            pairs.last().state,
        );
    }
}

/// Taking new pools in only adds: every edge that was there is there as it
/// was, and every pool that was indexed is indexed.
pub proof fn lemma_new_pairs_only_add(g: GraphView, pairs: Seq<NewPairView>)
    requires
        g.wf(),
    ensures
        with_new_pairs(g, pairs).edges.len() >= g.edges.len(),
        forall|i: int|
            0 <= i < g.edges.len() ==> #[trigger] with_new_pairs(g, pairs).edges[i] == g.edges[i],
        forall|a: Seq<char>| #[trigger]
            g.pool_index.contains_key(a) ==> with_new_pairs(g, pairs).pool_index.contains_key(a),
    decreases pairs.len(),
{
    if pairs.len() > 0 {
        lemma_new_pairs_only_add(g, pairs.drop_last());
        let before = with_new_pairs(g, pairs.drop_last());
        let last = pairs.last();
        if new_pair_refusal(before, last.component, last.state) is None {
            lemma_new_pairs_keep_invariants(g, pairs.drop_last());
            lemma_new_pair_gives_two_edges(before, last.component, last.state);
        }
    }
}

/// A block update deletes nothing and moves nothing: every edge that was
/// there keeps its place, its two nodes and its route, every pool that was
/// indexed stays indexed, and the nodes and the symbol index are as they
/// were.
pub proof fn lemma_block_update_only_adds(g: GraphView, msg: BlockUpdateView)
    requires
        g.wf(),
    ensures
        ({
            let h = with_block_update(g, msg);
            &&& h.nodes == g.nodes
            &&& h.node_index == g.node_index
            &&& h.edges.len() >= g.edges.len()
            &&& forall|i: int|
                0 <= i < g.edges.len() ==> (#[trigger] h.edges[i]).source == g.edges[i].source
                    && h.edges[i].target == g.edges[i].target && same_route(
                    h.edges[i].weight,
                    g.edges[i].weight,
                )
            &&& forall|a: Seq<char>| #[trigger]
                g.pool_index.contains_key(a) ==> h.pool_index.contains_key(a)
        }),
{
    let middle = with_new_pairs(g, msg.new_pairs);
    lemma_new_pairs_only_add(g, msg.new_pairs);
    lemma_new_pairs_keep_invariants(g, msg.new_pairs);
    lemma_state_updates_keep_identities(middle, msg.states);
    let h = with_block_update(g, msg);
    assert forall|i: int| 0 <= i < g.edges.len() implies (#[trigger] h.edges[i]).source
        == g.edges[i].source && h.edges[i].target == g.edges[i].target && same_route(
        h.edges[i].weight,
        g.edges[i].weight,
    ) by {
        assert(middle.edges[i] == g.edges[i]);
    }
}

/// No block update, whatever it holds and whatever of it is turned down,
/// leaves the two edges of a pool with different states or with a price that
/// is not the one their state quotes: a graph that is well formed and whose
/// pools are consistent is so after the update, with the nodes it had.
pub proof fn lemma_block_update_keeps_invariants(g: GraphView, msg: BlockUpdateView)
    requires
        g.wf(),
    ensures
        with_block_update(g, msg).wf(),
        with_block_update(g, msg).nodes == g.nodes,
        g.pools_consistent() ==> with_block_update(g, msg).pools_consistent(),
{
    lemma_new_pairs_keep_invariants(g, msg.new_pairs);
    lemma_state_updates_keep_identities(with_new_pairs(g, msg.new_pairs), msg.states);
}

/// A pool that one block update both brings and refreshes ends with the
/// refreshed state: where the pool is taken in with one state and a state
/// update for it is applied after that, both edges of the pool carry the
/// state of the update and its prices.
pub proof fn lemma_refresh_follows_new_pair(
    g: GraphView,
    pair: ProtocolComponentView,
    first: Seq<QuoteView>,
    second: Seq<QuoteView>,
)
    requires
        g.wf(),
        new_pair_refusal(g, pair, first) is None,
        state_update_refusal(with_new_pair(g, pair, first), pair.id, second) is None,
    ensures
        ({
            let h = with_state_update(with_new_pair(g, pair, first), pair.id, second);
            let n = g.edges.len() as int;
            &&& h.edges.len() == n + 2
            &&& h.pool_index[pair.id] == seq![n as u32, (n + 1) as u32]
            &&& h.edges[n].weight.state == second
            &&& h.edges[n + 1].weight.state == second
            &&& priced_by_state(h.edges[n])
            &&& priced_by_state(h.edges[n + 1])
        }),
{
    let middle = with_new_pair(g, pair, first);
    lemma_new_pair_gives_two_edges(g, pair, first);
    lemma_new_pair_keeps_invariants(g, pair, first);
    lemma_state_update_reaches_the_pool(middle, pair.id, second);
    let ids = middle.pool_index[pair.id];
    assert(ids[0] == g.edges.len() && ids[1] == g.edges.len() + 1);
}

/// The listing of a graph holds the record of every edge once, and they are
/// in order: no record's symbols sort before those of a record that stands
/// before it.
pub proof fn lemma_snapshot_is_sorted(g: GraphView)
    requires
        g.edges.len() <= capacity(),
    ensures
        snapshot(g).len() == g.edges.len(),
        is_listing(listing(g.edges), g.edges, g.edges.len() as int),
        forall|i: int, j: int|
            0 <= i < j < snapshot(g).len() ==> !key_before(
                ((#[trigger] snapshot(g)[j]).from_symbol, snapshot(g)[j].to_symbol),
                ((#[trigger] snapshot(g)[i]).from_symbol, snapshot(g)[i].to_symbol),
            ),
{
    lemma_listing_exists(g.edges);
    let order = listing(g.edges);
    assert forall|i: int, j: int| 0 <= i < j < snapshot(g).len() implies !key_before(
        ((#[trigger] snapshot(g)[j]).from_symbol, snapshot(g)[j].to_symbol),
        ((#[trigger] snapshot(g)[i]).from_symbol, snapshot(g)[i].to_symbol),
    ) by {
        lemma_listed_before_asymmetric(g.edges, order[i] as int, order[j] as int);
    }
}

} // verus!
