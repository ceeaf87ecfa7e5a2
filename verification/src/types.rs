//! The data the graph is made of, and the values that enter and leave it.
//!
//! A price is carried as the bit pattern of a binary64 number, as `to_bits`
//! gives it: the graph stores and hands out prices and never computes on them.

use vstd::prelude::*;
use std::collections::HashMap;

pub use crate::arbitrage_graph::ArbitrageGraph;
pub use crate::configuration::{ChainConfig, Config, TokenConfig};
pub use crate::constants::Network;
pub use crate::protocol::Protocol;

verus! {

/// A token as one chain knows it.
#[derive(Debug, PartialEq, Eq)]
pub struct Token {
    /// The on-chain address, as text.
    pub address: String,
    pub symbol: String,
    pub decimals: u32,
    /// A hint of what a transfer of the token costs in gas.
    pub gas: u64,
}

pub struct TokenView {
    pub address: Seq<char>,
    pub symbol: Seq<char>,
    pub decimals: u32,
    pub gas: u64,
}

impl View for Token {
    type V = TokenView;

    open spec fn view(&self) -> TokenView {
        TokenView {
            address: self.address@,
            symbol: self.symbol@,
            decimals: self.decimals,
            gas: self.gas,
        }
    }
}

impl Clone for Token {
    fn clone(&self) -> (r: Self)
        ensures
            r@ == self@,
    {
        Token {
            address: self.address.clone(),
            symbol: self.symbol.clone(),
            decimals: self.decimals,
            gas: self.gas,
        }
    }
}

/// The gas hint among the costs that are listed for a token: the first of
/// them, and 0 where none is listed or the first is not known.
pub open spec fn first_cost(costs: Seq<Option<u64>>) -> u64 {
    if costs.len() > 0 && costs[0] is Some {
        costs[0]->0
    } else {
        0
    }
}

/// The gas hint among the costs that are listed for a token.
pub fn gas_hint(costs: &Vec<Option<u64>>) -> (r: u64)
    ensures
        r == first_cost(costs@),
{
    if costs.len() > 0 {
        match costs[0] {
            Some(cost) => cost,
            None => 0,
        }
    } else {
        0
    }
}

/// The views of a sequence of tokens.
pub open spec fn token_views(tokens: Seq<Token>) -> Seq<TokenView> {
    tokens.map_values(|t: Token| t@)
}

/// The tokens that one chain lists.
#[derive(Debug, Clone, PartialEq, Eq)]
pub struct ChainTokens {
    pub chain_id: u64,
    pub tokens: Vec<Token>,
}

pub struct ChainTokensView {
    pub chain_id: u64,
    pub tokens: Seq<TokenView>,
}

impl View for ChainTokens {
    type V = ChainTokensView;

    open spec fn view(&self) -> ChainTokensView {
        ChainTokensView { chain_id: self.chain_id, tokens: token_views(self.tokens@) }
    }
}

/// The views of a token catalog, chain by chain.
pub open spec fn catalog_view(catalog: Seq<ChainTokens>) -> Seq<ChainTokensView> {
    catalog.map_values(|c: ChainTokens| c@)
}

/// A logical token: one symbol, with the token that stands for it on each
/// chain that has one.
#[derive(Debug, Clone, PartialEq, Eq)]
pub struct TokenNode {
    pub symbol: String,
    /// The chain's token, by chain id.
    pub tokens: HashMap<u64, Token>,
}

pub struct TokenNodeView {
    pub symbol: Seq<char>,
    pub tokens: Map<u64, TokenView>,
}

impl View for TokenNode {
    type V = TokenNodeView;

    open spec fn view(&self) -> TokenNodeView {
        TokenNodeView {
            symbol: self.symbol@,
            tokens: self.tokens@.map_values(|t: Token| t@),
        }
    }
}

/// The rate at which a pool converts one token into another: units of `to`
/// for one unit of `from`.
#[derive(Debug, PartialEq, Eq)]
pub struct Quote {
    /// Address of the token given.
    pub from: String,
    /// Address of the token received.
    pub to: String,
    /// The rate, as the bit pattern of a binary64 number.
    pub price: u64,
}

pub struct QuoteView {
    pub from: Seq<char>,
    pub to: Seq<char>,
    pub price: u64,
}

impl View for Quote {
    type V = QuoteView;

    open spec fn view(&self) -> QuoteView {
        QuoteView { from: self.from@, to: self.to@, price: self.price }
    }
}

impl Clone for Quote {
    fn clone(&self) -> (r: Self)
        ensures
            r@ == self@,
    {
        Quote { from: self.from.clone(), to: self.to.clone(), price: self.price }
    }
}

/// The price that `quotes` gives for converting `from` into `to`: that of the
/// first quote for the pair, if there is one.
pub open spec fn quoted_price(quotes: Seq<QuoteView>, from: Seq<char>, to: Seq<char>) -> Option<u64>
    decreases quotes.len(),
{
    if quotes.len() == 0 {
        None
    } else if quotes[0].from == from && quotes[0].to == to {
        Some(quotes[0].price)
    } else {
        quoted_price(quotes.drop_first(), from, to)
    }
}

/// The state of a pool at one moment, as far as the graph reads it: the rates
/// it quotes between its tokens. A direction that the pool cannot price has no
/// quote.
#[derive(Debug, PartialEq, Eq)]
pub struct PoolState {
    pub quotes: Vec<Quote>,
}

impl View for PoolState {
    type V = Seq<QuoteView>;

    open spec fn view(&self) -> Seq<QuoteView> {
        self.quotes@.map_values(|q: Quote| q@)
    }
}

impl Clone for PoolState {
    fn clone(&self) -> (r: Self)
        ensures
            r@ == self@,
    {
        let mut quotes: Vec<Quote> = Vec::new();
        let mut i: usize = 0;
        while i < self.quotes.len()
            invariant
                i <= self.quotes.len(),
                quotes@.len() == i,
                forall|j: int| 0 <= j < i ==> quotes@[j]@ == self.quotes@[j]@,
            decreases self.quotes.len() - i,
        {
            quotes.push(self.quotes[i].clone());
            i = i + 1;
        }
        let r = PoolState { quotes };
        assert(r@ =~= self@);
        r
    }
}

impl PoolState {
    /// The rate at which the pool converts `from` into `to`; `None` where the
    /// pool has no rate for the pair.
    pub fn spot_price(&self, from: &Token, to: &Token) -> (r: Option<u64>)
        ensures
            r == quoted_price(self@, from@.address, to@.address),
    {
        let mut i: usize = 0;
        assert(self@.skip(0) =~= self@);
        while i < self.quotes.len()
            invariant
                i <= self.quotes.len(),
                quoted_price(self@, from@.address, to@.address) == quoted_price(
                    self@.skip(i as int),
                    from@.address,
                    to@.address,
                ),
            decreases self.quotes.len() - i,
        {
            let q = &self.quotes[i];
            assert(self@.skip(i as int)[0] == q@);
            assert(self@.skip(i as int).drop_first() =~= self@.skip(i + 1));
            if q.from == from.address && q.to == to.address {
                return Some(q.price);
            }
            i = i + 1;
        }
        None
    }
}

/// A directed, priced route from one token to another through one pool.
#[derive(Debug, PartialEq, Eq)]
pub struct PriceEdge {
    pub chain_id: u64,
    pub protocol: Protocol,
    pub pool_address: String,
    /// The state of the pool that `price` was read from.
    pub state: PoolState,
    pub to_token: Token,
    pub from_token: Token,
    /// Units of `to_token` for one unit of `from_token`, as the bit pattern of
    /// a binary64 number.
    pub price: u64,
}

pub struct PriceEdgeView {
    pub chain_id: u64,
    pub protocol: Protocol,
    pub pool_address: Seq<char>,
    pub state: Seq<QuoteView>,
    pub to_token: TokenView,
    pub from_token: TokenView,
    pub price: u64,
}

impl View for PriceEdge {
    type V = PriceEdgeView;

    open spec fn view(&self) -> PriceEdgeView {
        PriceEdgeView {
            chain_id: self.chain_id,
            protocol: self.protocol,
            pool_address: self.pool_address@,
            state: self.state@,
            to_token: self.to_token@,
            from_token: self.from_token@,
            price: self.price,
        }
    }
}

impl Clone for PriceEdge {
    fn clone(&self) -> (r: Self)
        ensures
            r@ == self@,
    {
        PriceEdge {
            chain_id: self.chain_id,
            protocol: self.protocol,
            pool_address: self.pool_address.clone(),
            state: self.state.clone(),
            to_token: self.to_token.clone(),
            from_token: self.from_token.clone(),
            price: self.price,
        }
    }
}

/// A pool as it is announced: where it lives, what protocol it speaks and
/// which tokens it trades.
#[derive(Debug, Clone, PartialEq, Eq)]
pub struct ProtocolComponent {
    /// The address of the pool.
    pub id: String,
    /// The name of the protocol, as `Protocol::from_str` reads it.
    pub protocol_system: String,
    pub chain_id: u64,
    pub tokens: Vec<Token>,
}

pub struct ProtocolComponentView {
    pub id: Seq<char>,
    pub protocol_system: Seq<char>,
    pub chain_id: u64,
    pub tokens: Seq<TokenView>,
}

impl View for ProtocolComponent {
    type V = ProtocolComponentView;

    open spec fn view(&self) -> ProtocolComponentView {
        ProtocolComponentView {
            id: self.id@,
            protocol_system: self.protocol_system@,
            chain_id: self.chain_id,
            tokens: token_views(self.tokens@),
        }
    }
}

/// A pool seen for the first time, with its state.
#[derive(Debug, Clone, PartialEq, Eq)]
pub struct NewPair {
    pub component: ProtocolComponent,
    pub state: PoolState,
}

pub struct NewPairView {
    pub component: ProtocolComponentView,
    pub state: Seq<QuoteView>,
}

impl View for NewPair {
    type V = NewPairView;

    open spec fn view(&self) -> NewPairView {
        NewPairView { component: self.component@, state: self.state@ }
    }
}

/// A new state for the pool at `address`.
#[derive(Debug, Clone, PartialEq, Eq)]
pub struct StateUpdate {
    pub address: String,
    pub state: PoolState,
}

pub struct StateUpdateView {
    pub address: Seq<char>,
    pub state: Seq<QuoteView>,
}

impl View for StateUpdate {
    type V = StateUpdateView;

    open spec fn view(&self) -> StateUpdateView {
        StateUpdateView { address: self.address@, state: self.state@ }
    }
}

/// What one block changed: the pools it brought and the states it refreshed.
#[derive(Debug, Clone, PartialEq, Eq)]
pub struct BlockUpdate {
    pub new_pairs: Vec<NewPair>,
    pub states: Vec<StateUpdate>,
}

pub struct BlockUpdateView {
    pub new_pairs: Seq<NewPairView>,
    pub states: Seq<StateUpdateView>,
}

impl View for BlockUpdate {
    type V = BlockUpdateView;

    open spec fn view(&self) -> BlockUpdateView {
        BlockUpdateView {
            new_pairs: self.new_pairs@.map_values(|p: NewPair| p@),
            states: self.states@.map_values(|s: StateUpdate| s@),
        }
    }
}

/// A pool or a state that the graph turned down, and why.
#[derive(Debug, Clone, PartialEq, Eq)]
pub struct Rejection {
    /// The address of the pool.
    pub address: String,
    pub reason: GraphError,
}

pub struct RejectionView {
    pub address: Seq<char>,
    pub reason: GraphError,
}

impl View for Rejection {
    type V = RejectionView;

    open spec fn view(&self) -> RejectionView {
        RejectionView { address: self.address@, reason: self.reason }
    }
}

/// The views of rejections.
pub open spec fn rejection_views(rejections: Seq<Rejection>) -> Seq<RejectionView> {
    rejections.map_values(|r: Rejection| r@)
}

/// One edge as an observer sees it.
#[derive(Debug, Clone, PartialEq, Eq)]
pub struct EdgeRecord {
    pub from_symbol: String,
    pub to_symbol: String,
    pub chain_id: u64,
    pub protocol: Protocol,
    pub pool_address: String,
    /// The price of the edge, as the bit pattern of a binary64 number.
    pub price: u64,
}

pub struct EdgeRecordView {
    pub from_symbol: Seq<char>,
    pub to_symbol: Seq<char>,
    pub chain_id: u64,
    pub protocol: Protocol,
    pub pool_address: Seq<char>,
    pub price: u64,
}

impl View for EdgeRecord {
    type V = EdgeRecordView;

    open spec fn view(&self) -> EdgeRecordView {
        EdgeRecordView {
            from_symbol: self.from_symbol@,
            to_symbol: self.to_symbol@,
            chain_id: self.chain_id,
            protocol: self.protocol,
            pool_address: self.pool_address@,
            price: self.price,
        }
    }
}

/// Why the graph turned an input down. The graph is unchanged whenever one of
/// these is returned.
#[derive(Debug, Clone, Copy, PartialEq, Eq, Structural)]
pub enum GraphError {
    /// The graph already has nodes or edges.
    AlreadyInitialized,
    /// The graph cannot index that many nodes or edges.
    CapacityExceeded,
    /// The pool does not trade exactly two tokens.
    UnsupportedTokenCount,
    /// The pool trades a token whose symbol has no node.
    UnknownToken,
    /// The pool names a protocol that is not one of `Protocol`.
    UnknownProtocol,
    /// The pool state has no rate for a direction that is needed.
    PricingFailed,
}

} // verus!
