//! The listing of a graph's edges: every edge once, ordered by the symbols of
//! its two tokens.

use vstd::prelude::*;
use crate::arbitrage_graph::ArbitrageGraph;
use crate::model::capacity;
use crate::model::lists_edge;
use crate::model::EdgeView;
use crate::model::GraphView;
use crate::text::lemma_text_before_asymmetric;
use crate::text::lemma_text_before_irreflexive;
use crate::text::lemma_text_before_total;
use crate::text::lemma_text_before_transitive;
use crate::text::text_before;
use crate::text::text_rank;
use crate::text::Rank;
use crate::types::EdgeRecord;
use crate::types::EdgeRecordView;
use crate::types::PriceEdge;
use crate::types::PriceEdgeView;

verus! {

/// What an edge is ordered by: the symbol of the token it converts, then the
/// symbol of the token it converts into.
pub open spec fn route_key(w: PriceEdgeView) -> (Seq<char>, Seq<char>) {
    (w.from_token.symbol, w.to_token.symbol)
}

/// The key `a` sorts strictly before the key `b`: by the first symbol, and
/// among equal first symbols by the second.
pub open spec fn key_before(a: (Seq<char>, Seq<char>), b: (Seq<char>, Seq<char>)) -> bool {
    text_before(a.0, b.0) || (a.0 == b.0 && text_before(a.1, b.1))
}

/// The rank of the key `a` against the key `b`.
pub open spec fn key_rank_of(a: (Seq<char>, Seq<char>), b: (Seq<char>, Seq<char>)) -> Rank {
    if key_before(a, b) {
        Rank::Before
    } else if a == b {
        Rank::Same
    } else {
        Rank::After
    }
}

/// The edge `i` is listed before the edge `j`: its key sorts first, or the
/// keys are equal and `i` is the older edge.
pub open spec fn listed_before(edges: Seq<EdgeView>, i: int, j: int) -> bool {
    key_before(route_key(edges[i].weight), route_key(edges[j].weight)) || (route_key(
        edges[i].weight,
    ) == route_key(edges[j].weight) && i < j)
}

/// `order` lists the first `n` edges: it holds each of their indices, and no
/// other, and each stands before those that are listed after it.
pub open spec fn is_listing(order: Seq<u32>, edges: Seq<EdgeView>, n: int) -> bool {
    &&& order.len() == n
    &&& forall|k: int| 0 <= k < order.len() ==> 0 <= #[trigger] order[k] < n
    &&& forall|i: int| 0 <= i < n ==> #[trigger] lists_edge(order, i)
    &&& forall|i: int, j: int|
        0 <= i < j < order.len() ==> listed_before(
            edges,
            #[trigger] order[i] as int,
            #[trigger] order[j] as int,
        )
}

/// The order in which the edges are listed.
pub open spec fn listing(edges: Seq<EdgeView>) -> Seq<u32> {
    choose|order: Seq<u32>| is_listing(order, edges, edges.len() as int)
}

/// What an observer is shown of an edge.
pub open spec fn record_of(w: PriceEdgeView) -> EdgeRecordView {
    EdgeRecordView {
        from_symbol: w.from_token.symbol,
        to_symbol: w.to_token.symbol,
        chain_id: w.chain_id,
        protocol: w.protocol,
        pool_address: w.pool_address,
        price: w.price,
    }
}

/// The listing of a graph: the record of every edge, in the order of
/// `listing`.
pub open spec fn snapshot(g: GraphView) -> Seq<EdgeRecordView> {
    Seq::new(g.edges.len(), |k: int| record_of(g.edges[listing(g.edges)[k] as int].weight))
}

/// The views of records.
pub open spec fn record_views(records: Seq<EdgeRecord>) -> Seq<EdgeRecordView> {
    records.map_values(|r: EdgeRecord| r@)
}

/// A key does not sort before itself, nor two keys before each other.
pub proof fn lemma_key_before_asymmetric(a: (Seq<char>, Seq<char>), b: (Seq<char>, Seq<char>))
    requires
        key_before(a, b),
    ensures
        !key_before(b, a),
        a != b,
{
    lemma_text_before_irreflexive(a.0);
    lemma_text_before_irreflexive(a.1);
    if text_before(a.0, b.0) {
        lemma_text_before_asymmetric(a.0, b.0);
    } else {
        lemma_text_before_asymmetric(a.1, b.1);
    }
}

/// The order of keys is transitive.
pub proof fn lemma_key_before_transitive(
    a: (Seq<char>, Seq<char>),
    b: (Seq<char>, Seq<char>),
    c: (Seq<char>, Seq<char>),
)
    requires
        key_before(a, b),
        key_before(b, c),
    ensures
        key_before(a, c),
{
    lemma_text_before_irreflexive(a.0);
    lemma_text_before_irreflexive(b.0);
    if text_before(a.0, b.0) && text_before(b.0, c.0) {
        lemma_text_before_transitive(a.0, b.0, c.0);
    } else if a.0 == b.0 && b.0 == c.0 {
        lemma_text_before_transitive(a.1, b.1, c.1);
    }
}

/// Of two different keys one sorts before the other.
pub proof fn lemma_key_before_total(a: (Seq<char>, Seq<char>), b: (Seq<char>, Seq<char>))
    requires
        !key_before(a, b),
        !key_before(b, a),
    ensures
        a == b,
{
    lemma_text_before_total(a.0, b.0);
    lemma_text_before_total(a.1, b.1);
}

/// No edge is listed before itself, nor two edges before each other.
pub proof fn lemma_listed_before_asymmetric(edges: Seq<EdgeView>, i: int, j: int)
    requires
        listed_before(edges, i, j),
    ensures
        !listed_before(edges, j, i),
        i != j,
{
    let a = route_key(edges[i].weight);
    let b = route_key(edges[j].weight);
    if key_before(a, b) {
        lemma_key_before_asymmetric(a, b);
    }
    if key_before(b, a) {
        lemma_key_before_asymmetric(b, a);
    }
}

/// An edge sorts as its key sorts: putting the edge `m`, younger than all of
/// `order`, at the place `p` between the edges that are listed before it and
/// the edges whose keys sort after its own gives a listing again.
proof fn lemma_insert(order: Seq<u32>, edges: Seq<EdgeView>, m: int, p: int)
    requires
        is_listing(order, edges, m),
        0 <= m <= u32::MAX,
        0 <= p <= order.len(),
        forall|k: int|
            0 <= k < p ==> !key_before(
                route_key(edges[m].weight),
                route_key(edges[#[trigger] order[k] as int].weight),
            ),
        forall|k: int|
            p <= k < order.len() ==> key_before(
                route_key(edges[m].weight),
                route_key(edges[#[trigger] order[k] as int].weight),
            ),
    ensures
        is_listing(order.insert(p, m as u32), edges, m + 1),
{
    let grown = order.insert(p, m as u32);
    let key = route_key(edges[m].weight);
    assert forall|i: int| 0 <= i < m + 1 implies #[trigger] lists_edge(grown, i) by {
        if i == m {
            assert(grown[p] == i);
        } else {
            assert(lists_edge(order, i));
            let k = choose|k: int| 0 <= k < order.len() && order[k] == i;
            if k < p {
                assert(grown[k] == i);
            } else {
                assert(grown[k + 1] == i);
            }
        }
    }
    assert forall|i: int, j: int| 0 <= i < j < grown.len() implies listed_before(
        edges,
        #[trigger] grown[i] as int,
        #[trigger] grown[j] as int,
    ) by {
        if j == p {
            let other = route_key(edges[order[i] as int].weight);
            assert(grown[i] == order[i]);
            if !key_before(other, key) {
                lemma_key_before_total(other, key);
            }
        } else if i == p {
            assert(grown[j] == order[j - 1]);
        } else {
            let a = if i < p {
                i
            } else {
                i - 1
            };
            let b = if j < p {
                j
            } else {
                j - 1
            };
            assert(grown[i] == order[a] && grown[j] == order[b]);
        }
    }
}

/// Two listings of the same edges are the same listing.
pub proof fn lemma_listing_unique(a: Seq<u32>, b: Seq<u32>, edges: Seq<EdgeView>, n: int)
    requires
        is_listing(a, edges, n),
        is_listing(b, edges, n),
    ensures
        a == b,
{
    assert forall|k: int| 0 <= k < n implies a[k] == b[k] by {
        lemma_same_place(a, b, edges, n, k);
    }
    assert(a =~= b);
}

/// Two listings of the same edges hold the same edge at the place `k`. By
/// induction from the last place down: where the places after `k` agree, an
/// edge that the two listings held at different places up to `k` would be
/// listed before another edge in one of them and after it in the other.
proof fn lemma_same_place(a: Seq<u32>, b: Seq<u32>, edges: Seq<EdgeView>, n: int, k: int)
    requires
        is_listing(a, edges, n),
        is_listing(b, edges, n),
        0 <= k < n,
    ensures
        a[k] == b[k],
    decreases n - k,
{
    assert forall|j: int| k < j < n implies a[j] == b[j] by {
        lemma_same_place(a, b, edges, n, j);
    }
    let x = a[k];
    assert(lists_edge(b, x as int));
    let p = choose|p: int| 0 <= p < b.len() && b[p] == x;
    if p > k {
        assert(a[p] == b[p]);
        lemma_listed_before_asymmetric(edges, a[k] as int, a[p] as int);
    } else if p < k {
        let y = b[k];
        assert(lists_edge(a, y as int));
        let q = choose|q: int| 0 <= q < a.len() && a[q] == y;
        if q > k {
            assert(a[q] == b[q]);
            lemma_listed_before_asymmetric(edges, b[k] as int, b[q] as int);
        } else if q == k {
            lemma_listed_before_asymmetric(edges, b[p] as int, b[k] as int);
        } else {
            assert(listed_before(edges, a[q] as int, a[k] as int));
            assert(listed_before(edges, b[p] as int, b[k] as int));
            lemma_listed_before_asymmetric(edges, y as int, x as int);
        }
    }
}

/// The edges of a graph have a listing, and `listing` is it.
pub proof fn lemma_listing_exists(edges: Seq<EdgeView>)
    requires
        edges.len() <= capacity(),
    ensures
        is_listing(listing(edges), edges, edges.len() as int),
{
    lemma_listing_of_first(edges, edges.len() as int);
}

/// A listing of the first `n` edges, made by putting each edge in its place
/// among the older ones.
proof fn lemma_listing_of_first(edges: Seq<EdgeView>, n: int) -> (order: Seq<u32>)
    requires
        0 <= n <= edges.len(),
        n <= capacity(),
    ensures
        is_listing(order, edges, n),
    decreases n,
{
    if n == 0 {
        Seq::empty()
    } else {
        let m = n - 1;
        let front = lemma_listing_of_first(edges, m);
        let p = lemma_place(front, edges, m, 0);
        lemma_insert(front, edges, m, p);
        front.insert(p, m as u32)
    }
}

/// The first place of `order`, from `start` on, that holds an edge whose key
/// sorts after that of the edge `m`; every later place holds such an edge too.
proof fn lemma_place(order: Seq<u32>, edges: Seq<EdgeView>, m: int, start: int) -> (p: int)
    requires
        is_listing(order, edges, m),
        0 <= start <= order.len(),
        forall|k: int|
            0 <= k < start ==> !key_before(
                route_key(edges[m].weight),
                route_key(edges[#[trigger] order[k] as int].weight),
            ),
    ensures
        start <= p <= order.len(),
        forall|k: int|
            0 <= k < p ==> !key_before(
                route_key(edges[m].weight),
                route_key(edges[#[trigger] order[k] as int].weight),
            ),
        forall|k: int|
            p <= k < order.len() ==> key_before(
                route_key(edges[m].weight),
                route_key(edges[#[trigger] order[k] as int].weight),
            ),
    decreases order.len() - start,
{
    if start == order.len() {
        start
    } else if key_before(route_key(edges[m].weight), route_key(edges[order[start] as int].weight)) {
        lemma_later_keys_sort_after(order, edges, m, start);
        start
    } else {
        lemma_place(order, edges, m, start + 1)
    }
}

/// In a listing, where the key of the edge `m` sorts before that of the edge
/// at the place `p`, it sorts before those of all edges at later places.
proof fn lemma_later_keys_sort_after(order: Seq<u32>, edges: Seq<EdgeView>, m: int, p: int)
    requires
        is_listing(order, edges, m),
        0 <= p < order.len(),
        key_before(route_key(edges[m].weight), route_key(edges[order[p] as int].weight)),
    ensures
        forall|k: int|
            p <= k < order.len() ==> key_before(
                route_key(edges[m].weight),
                route_key(edges[#[trigger] order[k] as int].weight),
            ),
{
    let key = route_key(edges[m].weight);
    let at = route_key(edges[order[p] as int].weight);
    assert forall|k: int| p <= k < order.len() implies key_before(
        key,
        route_key(edges[#[trigger] order[k] as int].weight),
    ) by {
        if k > p {
            let later = route_key(edges[order[k] as int].weight);
            assert(listed_before(edges, order[p] as int, order[k] as int));
            if key_before(at, later) {
                lemma_key_before_transitive(key, at, later);
            }
        }
    }
}

/// In a listing, where the key of the edge `m` does not sort before that of
/// the edge at the place `p`, it sorts before that of no edge at an earlier
/// place.
proof fn lemma_earlier_keys_sort_before(order: Seq<u32>, edges: Seq<EdgeView>, m: int, p: int)
    requires
        is_listing(order, edges, m),
        0 <= p < order.len(),
        !key_before(route_key(edges[m].weight), route_key(edges[order[p] as int].weight)),
    ensures
        forall|k: int|
            0 <= k <= p ==> !key_before(
                route_key(edges[m].weight),
                route_key(edges[#[trigger] order[k] as int].weight),
            ),
{
    let key = route_key(edges[m].weight);
    let at = route_key(edges[order[p] as int].weight);
    assert forall|k: int| 0 <= k <= p implies !key_before(
        key,
        route_key(edges[#[trigger] order[k] as int].weight),
    ) by {
        if k < p {
            let earlier = route_key(edges[order[k] as int].weight);
            assert(listed_before(edges, order[k] as int, order[p] as int));
            if key_before(key, earlier) && key_before(earlier, at) {
                lemma_key_before_transitive(key, earlier, at);
            }
        }
    }
}

/// Ranks the key of one edge against that of another.
fn route_rank(a: &PriceEdge, b: &PriceEdge) -> (r: Rank)
    ensures
        r == key_rank_of(route_key(a@), route_key(b@)),
{
    match text_rank(a.from_token.symbol.as_str(), b.from_token.symbol.as_str()) {
        Rank::Before => Rank::Before,
        Rank::After => {
            proof {
                lemma_text_before_irreflexive(a@.from_token.symbol);
            }
            Rank::After
        },
        Rank::Same => {
            proof {
                lemma_text_before_irreflexive(a@.from_token.symbol);
            }
            text_rank(a.to_token.symbol.as_str(), b.to_token.symbol.as_str())
        },
    }
}

/// The indices of the graph's edges in the order of their listing.
fn listing_order(graph: &ArbitrageGraph) -> (order: Vec<u32>)
    requires
        graph.wf(),
    ensures
        order@ == listing(graph@.edges),
        is_listing(order@, graph@.edges, graph@.edges.len() as int),
{
    let ghost edges = graph@.edges;
    proof {
        graph.lemma_view_wf();
    }
    let n: usize = graph.edge_count();
    let mut order: Vec<u32> = Vec::new();
    let mut m: usize = 0;
    while m < n
        invariant
            m <= n,
            n == edges.len(),
            n <= capacity(),
            edges == graph@.edges,
            is_listing(order@, edges, m as int),
        decreases n - m,
    {
        let id: u32 = m as u32;
        let mut lo: usize = 0;
        let mut hi: usize = order.len();
        while lo < hi
            invariant
                lo <= hi <= order@.len(),
                m < n,
                n == edges.len(),
                n <= capacity(),
                id == m,
                edges == graph@.edges,
                is_listing(order@, edges, m as int),
                forall|k: int|
                    0 <= k < lo ==> !key_before(
                        route_key(edges[m as int].weight),
                        route_key(edges[#[trigger] order@[k] as int].weight),
                    ),
                forall|k: int|
                    hi <= k < order@.len() ==> key_before(
                        route_key(edges[m as int].weight),
                        route_key(edges[#[trigger] order@[k] as int].weight),
                    ),
            decreases hi - lo,
        {
            let mid: usize = lo + (hi - lo) / 2;
            let other: u32 = order[mid];
            let after = match (graph.edge(id), graph.edge(other)) {
                (Some(a), Some(b)) => match route_rank(a, b) {
                    Rank::Before => true,
                    _ => false,
                },
                _ => false,
            };
            if after {
                proof {
                    lemma_later_keys_sort_after(order@, edges, m as int, mid as int);
                }
                hi = mid;
            } else {
                proof {
                    lemma_earlier_keys_sort_before(order@, edges, m as int, mid as int);
                }
                lo = mid + 1;
            }
        }
        let p: usize = lo;
        proof {
            lemma_insert(order@, edges, m as int, p as int);
        }
        order.insert(p, id);
        m = m + 1;
    }
    proof {
        lemma_listing_exists(edges);
        lemma_listing_unique(order@, listing(edges), edges, n as int);
    }
    order
}

/// The listing of the graph: the record of every edge, ordered by the symbol
/// of the token that the edge converts, then by the symbol of the token that
/// it converts into, and among edges of the same two symbols by age.
pub(crate) fn sorted_records(graph: &ArbitrageGraph) -> (records: Vec<EdgeRecord>)
    requires
        graph.wf(),
    ensures
        record_views(records@) == snapshot(graph@),
{
    let order = listing_order(graph);
    let mut records: Vec<EdgeRecord> = Vec::new();
    let mut k: usize = 0;
    while k < order.len()
        invariant
            k <= order@.len(),
            order@ == listing(graph@.edges),
            is_listing(order@, graph@.edges, graph@.edges.len() as int),
            records@.len() == k,
            forall|j: int|
                0 <= j < k ==> (#[trigger] records@[j])@ == record_of(
                    graph@.edges[order@[j] as int].weight,
                ),
        decreases order@.len() - k,
    {
        match graph.edge(order[k]) {
            Some(e) => {
                records.push(
                    EdgeRecord {
                        from_symbol: e.from_token.symbol.clone(),
                        to_symbol: e.to_token.symbol.clone(),
                        chain_id: e.chain_id,
                        protocol: e.protocol,
                        pool_address: e.pool_address.clone(),
                        price: e.price,
                    },
                );
            },
            None => {
                proof {
                    assert(false);
                }
            },
        }
        k = k + 1;
    }
    proof {
        assert(record_views(records@) =~= snapshot(graph@));
    }
    records
}

} // verus!
