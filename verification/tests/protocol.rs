use arbitrage_graph::protocol::Protocol;

#[test]
fn protocol_names_round_trip() {
    let all = [
        (Protocol::UniswapV2, "uniswap_v2"),
        (Protocol::UniswapV3, "uniswap_v3"),
        (Protocol::UniswapV4, "uniswap_v4"),
        (Protocol::VmBalancerV2, "vm:balancer_v2"),
        (Protocol::VmCurve, "vm:curve"),
        (Protocol::SushiswapV2, "sushiswap_v2"),
        (Protocol::PancakeswapV2, "pancakeswap_v2"),
        (Protocol::PancakeswapV3, "pancakeswap_v3"),
        (Protocol::EkuboV2, "ekubo_v2"),
    ];
    for (protocol, name) in all {
        assert_eq!(protocol.to_str(), name);
        assert_eq!(Protocol::from_str(name), Some(protocol));
    }
}

#[test]
fn unknown_protocol_name_is_none() {
    assert_eq!(Protocol::from_str("uniswap_v5"), None);
    assert_eq!(Protocol::from_str(""), None);
    assert_eq!(Protocol::from_str("Uniswap_v2"), None);
    assert_eq!(Protocol::from_str("uniswap_v2 "), None);
}
