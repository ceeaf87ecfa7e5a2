//! A live, in-memory graph of tradable tokens and the priced routes between
//! them, kept in step with batches of pool updates.
//!
//! Nodes are logical tokens, one per symbol, each holding its per-chain
//! variants. Edges are directed, priced routes, two per two-token pool. The
//! graph is stored in a `petgraph` graph; two indexes, from symbol to node and
//! from pool address to edges, serve the updates.
//!
//! `arbitrage_graph` holds the graph and its operations, `model` says what
//! they do and `laws` what holds of them. `storage` and the chain-name
//! resolution in `configuration` are what is taken on trust of outside code.

pub mod arbitrage_graph;
pub mod catalog;
pub mod configuration;
pub mod constants;
pub mod exchanges;
pub mod index;
pub mod laws;
pub mod model;
pub mod protocol;
pub mod snapshot;
pub mod storage;
pub mod text;
pub mod types;
