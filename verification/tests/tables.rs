use arbitrage_graph::constants::{network, networks, TYCHO_API_KEY};
use arbitrage_graph::exchanges::{exchanges_for_chain, Exchange, PoolFilter, StateKind};
use arbitrage_graph::protocol::Protocol;

#[test]
fn three_networks_are_known() {
    let all = networks();
    assert_eq!(all.len(), 3);
    assert_eq!(all[0].name, "ethereum");
    assert_eq!(all[0].chainid, 1);
    assert_eq!(all[0].rpc, "https://ethereum-rpc.publicnode.com");
    assert_eq!(all[0].explorer, "https://etherscan.io/");
    assert_eq!(all[0].tycho_url, "tycho-beta.propellerheads.xyz");
    assert_eq!(all[0].permit2, "0x000000000022D473030F116dDEE9F6B43aC78BA3");
    assert_eq!(all[0].router, "0xfD0b31d2E955fA55e3fa641Fe90e08b677188d35");
    assert_eq!(all[0].block_time_ms, 12000);
    assert_eq!(all[1].name, "base");
    assert_eq!(all[1].chainid, 8453);
    assert_eq!(all[1].tycho_url, "tycho-base-beta.propellerheads.xyz");
    assert_eq!(all[1].router, "0xea3207778e39EB02D72C9D3c4Eac7E224ac5d369");
    assert_eq!(all[1].block_time_ms, 250);
    assert_eq!(all[2].name, "unichain");
    assert_eq!(all[2].chainid, 130);
    assert_eq!(all[2].rpc, "https://unichain.drpc.org");
    assert_eq!(all[2].block_time_ms, 1000);
    assert_eq!(TYCHO_API_KEY, "sampletoken");
}

#[test]
fn network_is_found_by_name() {
    for known in networks() {
        assert_eq!(network(known.name.clone()), Some(known));
    }
    assert_eq!(network("Ethereum".to_string()), None);
    assert_eq!(network("".to_string()), None);
    assert_eq!(network("polygon".to_string()), None);
}

fn protocols(chain_id: u64, rpc_url: &str) -> Vec<Protocol> {
    exchanges_for_chain(chain_id, rpc_url).into_iter().map(|e| e.protocol).collect()
}

#[test]
fn ethereum_follows_the_simulated_exchanges_only_with_a_node() {
    assert_eq!(
        protocols(1, ""),
        vec![
            Protocol::UniswapV2,
            Protocol::UniswapV3,
            Protocol::UniswapV4,
            Protocol::EkuboV2,
            Protocol::SushiswapV2,
            Protocol::PancakeswapV2,
            Protocol::PancakeswapV3,
        ]
    );
    let with_node = exchanges_for_chain(1, "https://rpc.example");
    assert_eq!(with_node.len(), 9);
    assert_eq!(
        with_node[7],
        Exchange { protocol: Protocol::VmBalancerV2, state: StateKind::Vm, filter: PoolFilter::BalancerV2 }
    );
    assert_eq!(
        with_node[8],
        Exchange { protocol: Protocol::VmCurve, state: StateKind::Vm, filter: PoolFilter::Curve }
    );
    assert_eq!(
        with_node[2],
        Exchange {
            protocol: Protocol::UniswapV4,
            state: StateKind::UniswapV4,
            filter: PoolFilter::UniswapV4Hooks
        }
    );
    assert_eq!(
        with_node[4],
        Exchange {
            protocol: Protocol::SushiswapV2,
            state: StateKind::UniswapV2,
            filter: PoolFilter::Everything
        }
    );
    assert_eq!(with_node[6].state, StateKind::UniswapV3);
    assert_eq!(with_node[3].state, StateKind::Ekubo);
}

#[test]
fn base_and_unichain_follow_uniswap_only() {
    let want = vec![Protocol::UniswapV2, Protocol::UniswapV3, Protocol::UniswapV4];
    assert_eq!(protocols(8453, ""), want);
    assert_eq!(protocols(8453, "https://rpc.example"), want);
    assert_eq!(protocols(130, "https://rpc.example"), want);
}

#[test]
fn other_chains_follow_nothing() {
    assert!(exchanges_for_chain(0, "https://rpc.example").is_empty());
    assert!(exchanges_for_chain(137, "").is_empty());
}

#[test]
fn indexer_endpoint_is_the_url_over_https() {
    let all = networks();
    assert_eq!(all[0].tycho_endpoint(), "https://tycho-beta.propellerheads.xyz");
    assert_eq!(all[1].tycho_endpoint(), "https://tycho-base-beta.propellerheads.xyz");
    assert_eq!(all[2].tycho_endpoint(), "https://tycho-unichain-beta.propellerheads.xyz");
}
