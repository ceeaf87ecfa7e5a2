use arbitrage_graph::arbitrage_graph::ArbitrageGraph;
use arbitrage_graph::protocol::Protocol;
use arbitrage_graph::types::{
    gas_hint, BlockUpdate, ChainTokens, GraphError, NewPair, PoolState, PriceEdge, ProtocolComponent, Quote,
    Rejection, StateUpdate, Token,
};

fn token(symbol: &str, address: &str) -> Token {
    Token { address: address.to_string(), symbol: symbol.to_string(), decimals: 18, gas: 0 }
}

fn eth() -> Token {
    token("ETH", "0xe1")
}

fn usdc() -> Token {
    token("USDC", "0xc1")
}

fn two_chain_catalog() -> Vec<ChainTokens> {
    vec![
        ChainTokens { chain_id: 1, tokens: vec![eth(), usdc()] },
        ChainTokens { chain_id: 2, tokens: vec![token("ETH", "0xe2"), token("USDC", "0xc2")] },
    ]
}

fn quote(from: &Token, to: &Token, price: f64) -> Quote {
    Quote { from: from.address.clone(), to: to.address.clone(), price: price.to_bits() }
}

fn eth_usdc_state(forward: f64, backward: f64) -> PoolState {
    PoolState { quotes: vec![quote(&eth(), &usdc(), forward), quote(&usdc(), &eth(), backward)] }
}

fn pool(id: &str, protocol: &str, tokens: Vec<Token>) -> ProtocolComponent {
    ProtocolComponent {
        id: id.to_string(),
        protocol_system: protocol.to_string(),
        chain_id: 1,
        tokens,
    }
}

fn ready_graph() -> ArbitrageGraph {
    let mut graph = ArbitrageGraph::new();
    assert_eq!(graph.initialize(two_chain_catalog()), Ok(()));
    graph
}

fn price_of(graph: &ArbitrageGraph, edge: u32) -> f64 {
    f64::from_bits(graph.edge(edge).unwrap().price)
}

#[test]
fn new_graph_is_empty() {
    let graph = ArbitrageGraph::new();
    assert_eq!(graph.node_count(), 0);
    assert_eq!(graph.edge_count(), 0);
    assert!(graph.node(0).is_none());
    assert!(graph.edge(0).is_none());
    assert!(graph.edge_endpoints(0).is_none());
    assert!(graph.format_pairs().is_empty());
}

#[test]
fn initialize_merges_symbols_across_chains() {
    let graph = ready_graph();
    assert_eq!(graph.node_count(), 2);
    assert_eq!(graph.edge_count(), 0);
    let first = graph.node(0).unwrap();
    assert_eq!(first.symbol, "ETH");
    assert_eq!(first.tokens.len(), 2);
    assert_eq!(first.tokens[&1].address, "0xe1");
    assert_eq!(first.tokens[&2].address, "0xe2");
    let second = graph.node(1).unwrap();
    assert_eq!(second.symbol, "USDC");
    assert_eq!(second.tokens[&1].address, "0xc1");
    assert_eq!(second.tokens[&2].address, "0xc2");
    assert_eq!(graph.node_index(&"ETH".to_string()), Some(0));
    assert_eq!(graph.node_index(&"USDC".to_string()), Some(1));
    assert_eq!(graph.node_index(&"DAI".to_string()), None);
    assert!(graph.node(2).is_none());
}

#[test]
fn node_count_ignores_the_order_of_chains() {
    let mut catalog = two_chain_catalog();
    catalog.push(ChainTokens { chain_id: 3, tokens: vec![token("DAI", "0xd3"), eth()] });
    let mut reversed = catalog.clone();
    reversed.reverse();
    let mut one = ArbitrageGraph::new();
    let mut other = ArbitrageGraph::new();
    assert_eq!(one.initialize(catalog), Ok(()));
    assert_eq!(other.initialize(reversed), Ok(()));
    assert_eq!(one.node_count(), 3);
    assert_eq!(other.node_count(), 3);
    assert_eq!(other.node(0).unwrap().symbol, "DAI");
}

#[test]
fn later_token_of_a_chain_replaces_an_earlier_one() {
    let mut graph = ArbitrageGraph::new();
    let catalog = vec![
        ChainTokens { chain_id: 1, tokens: vec![token("ETH", "0xa"), token("ETH", "0xb")] },
    ];
    assert_eq!(graph.initialize(catalog), Ok(()));
    assert_eq!(graph.node_count(), 1);
    assert_eq!(graph.node(0).unwrap().tokens.len(), 1);
    assert_eq!(graph.node(0).unwrap().tokens[&1].address, "0xb");
}

#[test]
fn empty_catalog_gives_empty_graph() {
    let mut graph = ArbitrageGraph::new();
    assert_eq!(graph.initialize(Vec::new()), Ok(()));
    assert_eq!(graph.node_count(), 0);
    assert_eq!(
        graph.initialize(vec![ChainTokens { chain_id: 1, tokens: Vec::new() }]),
        Ok(())
    );
    assert_eq!(graph.node_count(), 0);
}

#[test]
fn initialize_twice_is_refused() {
    let mut graph = ready_graph();
    assert_eq!(graph.initialize(two_chain_catalog()), Err(GraphError::AlreadyInitialized));
    assert_eq!(graph.node_count(), 2);
}

#[test]
fn new_pair_adds_two_opposite_edges() {
    let mut graph = ready_graph();
    let state = eth_usdc_state(3000.0, 0.000333);
    assert_eq!(graph.handle_new_pair(pool("pool-1", "uniswap_v2", vec![eth(), usdc()]), state), Ok(()));
    assert_eq!(graph.node_count(), 2);
    assert_eq!(graph.edge_count(), 2);
    assert_eq!(graph.pool_edges(&"pool-1".to_string()), Some(&vec![0, 1]));
    assert_eq!(graph.edge_endpoints(0), Some((0, 1)));
    assert_eq!(graph.edge_endpoints(1), Some((1, 0)));
    let forward = graph.edge(0).unwrap();
    assert_eq!(forward.from_token.symbol, "ETH");
    assert_eq!(forward.to_token.symbol, "USDC");
    assert_eq!(forward.chain_id, 1);
    assert_eq!(forward.protocol, Protocol::UniswapV2);
    assert_eq!(forward.pool_address, "pool-1");
    assert_eq!(f64::from_bits(forward.price), 3000.0);
    assert_eq!(forward.state, eth_usdc_state(3000.0, 0.000333));
    let backward = graph.edge(1).unwrap();
    assert_eq!(backward.from_token.symbol, "USDC");
    assert_eq!(backward.to_token.symbol, "ETH");
    assert_eq!(f64::from_bits(backward.price), 0.000333);
    assert_eq!(backward.state, forward.state);
    assert_eq!(graph.pool_tokens(&"pool-1".to_string()), Some((eth(), usdc())));
    assert_eq!(graph.pool_tokens(&"pool-2".to_string()), None);
}

#[test]
fn scenario_catalog_pool_refresh_snapshot() {
    let mut graph = ready_graph();
    assert_eq!(graph.node_count(), 2);
    let state = eth_usdc_state(3000.0, 0.000333);
    assert_eq!(graph.handle_new_pair(pool("pool-1", "uniswap_v2", vec![eth(), usdc()]), state), Ok(()));
    assert_eq!(graph.node_count(), 2);
    assert_eq!(graph.edge_count(), 2);
    assert_eq!(graph.pool_edges(&"pool-1".to_string()), Some(&vec![0, 1]));
    assert_eq!(price_of(&graph, 0), 3000.0);
    assert_eq!(price_of(&graph, 1), 0.000333);

    let refreshed = eth_usdc_state(3100.0, 0.000322);
    assert_eq!(graph.handle_state_update(refreshed.clone(), "pool-1".to_string()), Ok(2));
    assert_eq!(price_of(&graph, 0), 3100.0);
    assert_eq!(price_of(&graph, 1), 0.000322);
    assert_eq!(graph.edge(0).unwrap().state, refreshed);
    assert_eq!(graph.edge(1).unwrap().state, refreshed);
    assert_eq!(graph.pool_edges(&"pool-1".to_string()), Some(&vec![0, 1]));
    assert_eq!(graph.edge_endpoints(0), Some((0, 1)));
    assert_eq!(graph.edge_endpoints(1), Some((1, 0)));
    assert_eq!(graph.edge_count(), 2);

    let records = graph.format_pairs();
    assert_eq!(records.len(), 2);
    assert_eq!((records[0].from_symbol.as_str(), records[0].to_symbol.as_str()), ("ETH", "USDC"));
    assert_eq!((records[1].from_symbol.as_str(), records[1].to_symbol.as_str()), ("USDC", "ETH"));
    assert_eq!(f64::from_bits(records[0].price), 3100.0);
    assert_eq!(f64::from_bits(records[1].price), 0.000322);
    assert_eq!(records[0].chain_id, 1);
    assert_eq!(records[0].protocol, Protocol::UniswapV2);
    assert_eq!(records[0].pool_address, "pool-1");
}

#[test]
fn new_pair_with_one_or_three_tokens_is_refused() {
    let mut graph = ready_graph();
    let state = eth_usdc_state(1.0, 1.0);
    assert_eq!(
        graph.handle_new_pair(pool("pool-1", "uniswap_v2", vec![eth()]), state.clone()),
        Err(GraphError::UnsupportedTokenCount)
    );
    assert_eq!(
        graph.handle_new_pair(pool("pool-1", "uniswap_v2", vec![eth(), usdc(), eth()]), state),
        Err(GraphError::UnsupportedTokenCount)
    );
    assert_eq!(graph.edge_count(), 0);
    assert_eq!(graph.pool_edges(&"pool-1".to_string()), None);
}

#[test]
fn new_pair_with_unknown_protocol_is_refused() {
    let mut graph = ready_graph();
    assert_eq!(
        graph.handle_new_pair(pool("pool-1", "uniswap_v9", vec![eth(), usdc()]), eth_usdc_state(1.0, 1.0)),
        Err(GraphError::UnknownProtocol)
    );
    assert_eq!(graph.edge_count(), 0);
}

#[test]
fn new_pair_with_unknown_token_is_refused() {
    let mut graph = ready_graph();
    let dai = token("DAI", "0xd1");
    let state = PoolState {
        quotes: vec![quote(&eth(), &dai, 3000.0), quote(&dai, &eth(), 0.0003)],
    };
    assert_eq!(
        graph.handle_new_pair(pool("pool-1", "uniswap_v2", vec![eth(), dai.clone()]), state.clone()),
        Err(GraphError::UnknownToken)
    );
    assert_eq!(
        graph.handle_new_pair(pool("pool-1", "uniswap_v2", vec![dai, eth()]), state),
        Err(GraphError::UnknownToken)
    );
    assert_eq!(graph.edge_count(), 0);
}

#[test]
fn new_pair_without_a_price_leaves_no_edge() {
    let mut graph = ready_graph();
    let one_sided = PoolState { quotes: vec![quote(&eth(), &usdc(), 3000.0)] };
    assert_eq!(
        graph.handle_new_pair(pool("pool-1", "uniswap_v2", vec![eth(), usdc()]), one_sided),
        Err(GraphError::PricingFailed)
    );
    assert_eq!(graph.edge_count(), 0);
    assert_eq!(graph.pool_edges(&"pool-1".to_string()), None);
}

#[test]
fn first_quote_of_a_pair_counts() {
    let state = PoolState {
        quotes: vec![
            quote(&usdc(), &eth(), 7.0),
            quote(&eth(), &usdc(), 1.0),
            quote(&eth(), &usdc(), 2.0),
        ],
    };
    assert_eq!(state.spot_price(&eth(), &usdc()), Some(1.0f64.to_bits()));
    assert_eq!(state.spot_price(&usdc(), &eth()), Some(7.0f64.to_bits()));
    assert_eq!(state.spot_price(&eth(), &eth()), None);
    assert_eq!(PoolState { quotes: Vec::new() }.spot_price(&eth(), &usdc()), None);
}

#[test]
fn state_update_for_unknown_pool_changes_nothing() {
    let mut graph = ready_graph();
    assert_eq!(
        graph.handle_new_pair(pool("pool-1", "uniswap_v2", vec![eth(), usdc()]), eth_usdc_state(3000.0, 0.0003)),
        Ok(())
    );
    let before = graph.format_pairs();
    assert_eq!(graph.handle_state_update(eth_usdc_state(1.0, 1.0), "pool-2".to_string()), Ok(0));
    assert_eq!(graph.handle_state_update(PoolState { quotes: Vec::new() }, "pool-2".to_string()), Ok(0));
    assert_eq!(graph.format_pairs(), before);
    assert_eq!(graph.edge_count(), 2);
    assert_eq!(graph.pool_edges(&"pool-2".to_string()), None);
    assert_eq!(graph.edge(0).unwrap().state, eth_usdc_state(3000.0, 0.0003));
}

#[test]
fn state_update_without_a_price_touches_no_edge() {
    let mut graph = ready_graph();
    assert_eq!(
        graph.handle_new_pair(pool("pool-1", "uniswap_v2", vec![eth(), usdc()]), eth_usdc_state(3000.0, 0.0003)),
        Ok(())
    );
    let one_sided = PoolState { quotes: vec![quote(&eth(), &usdc(), 3100.0)] };
    assert_eq!(
        graph.handle_state_update(one_sided, "pool-1".to_string()),
        Err(GraphError::PricingFailed)
    );
    assert_eq!(price_of(&graph, 0), 3000.0);
    assert_eq!(price_of(&graph, 1), 0.0003);
    assert_eq!(graph.edge(0).unwrap().state, graph.edge(1).unwrap().state);
}

#[test]
fn repeated_updates_keep_the_latest_state() {
    let mut graph = ready_graph();
    assert_eq!(
        graph.handle_new_pair(pool("pool-1", "uniswap_v2", vec![eth(), usdc()]), eth_usdc_state(3000.0, 0.0003)),
        Ok(())
    );
    for step in 1..6 {
        let forward = 3000.0 + step as f64;
        let backward = 1.0 / forward;
        let state = eth_usdc_state(forward, backward);
        assert_eq!(graph.handle_state_update(state.clone(), "pool-1".to_string()), Ok(2));
        assert_eq!(price_of(&graph, 0), forward);
        assert_eq!(price_of(&graph, 1), backward);
        assert_eq!(graph.edge(0).unwrap().state, state);
        assert_eq!(graph.edge(1).unwrap().state, state);
        assert_eq!(graph.edge_endpoints(0), Some((0, 1)));
        assert_eq!(graph.edge_endpoints(1), Some((1, 0)));
        assert_eq!(graph.edge(0).unwrap().pool_address, "pool-1");
        assert_eq!(graph.edge(0).unwrap().from_token, eth());
        assert_eq!(graph.pool_edges(&"pool-1".to_string()), Some(&vec![0, 1]));
        assert_eq!(graph.edge_count(), 2);
    }
}

#[test]
fn block_update_takes_new_pools_before_states() {
    let mut graph = ready_graph();
    let msg = BlockUpdate {
        new_pairs: vec![
            NewPair {
                component: pool("pool-1", "uniswap_v2", vec![eth(), usdc()]),
                state: eth_usdc_state(3000.0, 0.0003),
            },
            NewPair {
                component: pool("pool-2", "no_such_protocol", vec![eth(), usdc()]),
                state: eth_usdc_state(1.0, 1.0),
            },
            NewPair {
                component: pool("pool-3", "vm:curve", vec![usdc(), eth()]),
                state: eth_usdc_state(2999.0, 0.00031),
            },
        ],
        states: vec![
            StateUpdate { address: "pool-1".to_string(), state: eth_usdc_state(3100.0, 0.00032) },
            StateUpdate { address: "pool-9".to_string(), state: eth_usdc_state(5.0, 5.0) },
            StateUpdate { address: "pool-3".to_string(), state: PoolState { quotes: Vec::new() } },
        ],
    };
    let rejected = graph.handle_block_update(msg);
    assert_eq!(
        rejected,
        vec![
            Rejection { address: "pool-2".to_string(), reason: GraphError::UnknownProtocol },
            Rejection { address: "pool-3".to_string(), reason: GraphError::PricingFailed },
        ]
    );
    assert_eq!(graph.edge_count(), 4);
    assert_eq!(graph.pool_edges(&"pool-1".to_string()), Some(&vec![0, 1]));
    assert_eq!(graph.pool_edges(&"pool-2".to_string()), None);
    assert_eq!(graph.pool_edges(&"pool-3".to_string()), Some(&vec![2, 3]));
    assert_eq!(price_of(&graph, 0), 3100.0);
    assert_eq!(price_of(&graph, 1), 0.00032);
    assert_eq!(graph.edge(0).unwrap().state, eth_usdc_state(3100.0, 0.00032));
    assert_eq!(price_of(&graph, 2), 0.00031);
    assert_eq!(price_of(&graph, 3), 2999.0);
    assert_eq!(graph.edge(2).unwrap().protocol, Protocol::VmCurve);
    assert_eq!(graph.edge_endpoints(2), Some((1, 0)));
}

#[test]
fn empty_block_update_changes_nothing() {
    let mut graph = ready_graph();
    let rejected = graph.handle_block_update(BlockUpdate { new_pairs: Vec::new(), states: Vec::new() });
    assert!(rejected.is_empty());
    assert_eq!(graph.edge_count(), 0);
    assert_eq!(graph.node_count(), 2);
}

#[test]
fn pool_seen_again_is_indexed_to_its_new_edges() {
    let mut graph = ready_graph();
    for _ in 0..2 {
        assert_eq!(
            graph.handle_new_pair(pool("pool-1", "uniswap_v2", vec![eth(), usdc()]), eth_usdc_state(3000.0, 0.0003)),
            Ok(())
        );
    }
    assert_eq!(graph.edge_count(), 4);
    assert_eq!(graph.pool_edges(&"pool-1".to_string()), Some(&vec![2, 3]));
}

#[test]
fn snapshot_is_sorted_by_symbols_then_age() {
    let mut graph = ArbitrageGraph::new();
    let dai = token("DAI", "0xd1");
    let catalog = vec![ChainTokens { chain_id: 1, tokens: vec![usdc(), eth(), dai.clone()] }];
    assert_eq!(graph.initialize(catalog), Ok(()));
    let usdc_dai = PoolState { quotes: vec![quote(&usdc(), &dai, 1.0), quote(&dai, &usdc(), 1.0)] };
    assert_eq!(
        graph.handle_new_pair(pool("A", "uniswap_v3", vec![usdc(), dai.clone()]), usdc_dai),
        Ok(())
    );
    assert_eq!(
        graph.handle_new_pair(pool("B", "uniswap_v2", vec![usdc(), eth()]), eth_usdc_state(3000.0, 0.0003)),
        Ok(())
    );
    assert_eq!(
        graph.handle_new_pair(pool("C", "sushiswap_v2", vec![eth(), usdc()]), eth_usdc_state(3001.0, 0.0004)),
        Ok(())
    );
    let listed: Vec<(String, String, String)> = graph
        .format_pairs()
        .into_iter()
        .map(|r| (r.from_symbol, r.to_symbol, r.pool_address))
        .collect();
    let expected = [
        ("DAI", "USDC", "A"),
        ("ETH", "USDC", "B"),
        ("ETH", "USDC", "C"),
        ("USDC", "DAI", "A"),
        ("USDC", "ETH", "B"),
        ("USDC", "ETH", "C"),
    ];
    assert_eq!(listed.len(), expected.len());
    for (got, want) in listed.iter().zip(expected.iter()) {
        assert_eq!((got.0.as_str(), got.1.as_str(), got.2.as_str()), *want);
    }
    assert_eq!(graph.format_pairs(), graph.format_pairs());
}

#[test]
fn add_edge_and_update_edge_keep_the_pool_index() {
    let mut graph = ready_graph();
    let edge = PriceEdge {
        chain_id: 1,
        protocol: Protocol::EkuboV2,
        pool_address: "X".to_string(),
        state: eth_usdc_state(10.0, 0.1),
        to_token: usdc(),
        from_token: eth(),
        price: 10.0f64.to_bits(),
    };
    assert_eq!(graph.add_edge(edge.clone(), 0, 1), 0);
    assert_eq!(graph.edge_count(), 1);
    assert_eq!(graph.edge_endpoints(0), Some((0, 1)));
    assert_eq!(graph.pool_edges(&"X".to_string()), None);
    let mut changed = edge.clone();
    changed.price = 11.0f64.to_bits();
    graph.update_edge(0, changed);
    assert_eq!(price_of(&graph, 0), 11.0);
    assert_eq!(graph.edge_endpoints(0), Some((0, 1)));
    assert_eq!(graph.update_edge_weight(0, eth_usdc_state(12.0, 0.2)), Ok(()));
    assert_eq!(price_of(&graph, 0), 12.0);
    assert_eq!(graph.edge(0).unwrap().state, eth_usdc_state(12.0, 0.2));
    assert_eq!(
        graph.update_edge_weight(0, PoolState { quotes: Vec::new() }),
        Err(GraphError::PricingFailed)
    );
    assert_eq!(price_of(&graph, 0), 12.0);
}

#[test]
fn gas_hint_is_the_first_known_cost() {
    assert_eq!(gas_hint(&vec![]), 0);
    assert_eq!(gas_hint(&vec![None]), 0);
    assert_eq!(gas_hint(&vec![None, Some(7)]), 0);
    assert_eq!(gas_hint(&vec![Some(2300)]), 2300);
    assert_eq!(gas_hint(&vec![Some(5), Some(9)]), 5);
    assert_eq!(gas_hint(&vec![Some(u64::MAX)]), u64::MAX);
}

#[test]
fn large_graph_is_listed_in_order() {
    let symbols: Vec<String> = (0..40).map(|i| format!("T{:02}", (i * 17) % 40)).collect();
    let tokens: Vec<Token> = symbols
        .iter()
        .enumerate()
        .map(|(i, s)| token(s, &format!("0x{:040x}", i + 1)))
        .collect();
    let mut graph = ArbitrageGraph::new();
    assert_eq!(graph.initialize(vec![ChainTokens { chain_id: 1, tokens: tokens.clone() }]), Ok(()));
    assert_eq!(graph.node_count(), 40);

    let pools = 3000usize;
    for p in 0..pools {
        let a = &tokens[(p * 7) % 40];
        let b = &tokens[(p * 11 + 3) % 40];
        let state = PoolState {
            quotes: vec![quote(a, b, p as f64 + 0.5), quote(b, a, 1.0 / (p as f64 + 0.5))],
        };
        let component = pool(&format!("0x{:040x}", 0xabc000 + p), "uniswap_v3", vec![a.clone(), b.clone()]);
        assert_eq!(graph.handle_new_pair(component, state), Ok(()));
    }
    assert_eq!(graph.edge_count(), 2 * pools);

    for p in (0..pools).step_by(3) {
        let a = &tokens[(p * 7) % 40];
        let b = &tokens[(p * 11 + 3) % 40];
        let state = PoolState { quotes: vec![quote(a, b, 2.0), quote(b, a, 0.5)] };
        assert_eq!(graph.handle_state_update(state, format!("0x{:040x}", 0xabc000 + p)), Ok(2));
    }

    let records = graph.format_pairs();
    assert_eq!(records.len(), 2 * pools);
    let mut expected: Vec<(String, String, usize)> = (0..2 * pools)
        .map(|i| {
            let e = graph.edge(i as u32).unwrap();
            (e.from_token.symbol.clone(), e.to_token.symbol.clone(), i)
        })
        .collect();
    expected.sort();
    for (record, (from, to, id)) in records.iter().zip(expected.iter()) {
        let e = graph.edge(*id as u32).unwrap();
        assert_eq!(&record.from_symbol, from);
        assert_eq!(&record.to_symbol, to);
        assert_eq!(record.pool_address, e.pool_address);
        assert_eq!(record.price, e.price);
    }
    let refreshed = graph.edge(0).unwrap();
    assert_eq!(f64::from_bits(refreshed.price), 2.0);
    assert_eq!(f64::from_bits(graph.edge(1).unwrap().price), 0.5);
    assert_eq!(f64::from_bits(graph.edge(2).unwrap().price), 1.5);
}
