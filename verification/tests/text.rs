use arbitrage_graph::text::{text_eq, text_rank, Rank};

#[test]
fn text_rank_follows_str_order() {
    let samples = ["", "A", "ETH", "ETHx", "USDC", "a", "eth", "é", "日本", "\u{10FFFF}", "WETH"];
    for a in samples {
        for b in samples {
            let want = match a.cmp(b) {
                std::cmp::Ordering::Less => Rank::Before,
                std::cmp::Ordering::Equal => Rank::Same,
                std::cmp::Ordering::Greater => Rank::After,
            };
            assert_eq!(text_rank(a, b), want);
            assert_eq!(text_eq(a, b), a == b);
        }
    }
}

#[test]
fn prefix_sorts_first() {
    assert_eq!(text_rank("ETH", "ETHx"), Rank::Before);
    assert_eq!(text_rank("ETHx", "ETH"), Rank::After);
    assert_eq!(text_rank("", ""), Rank::Same);
    assert_eq!(text_rank("", "a"), Rank::Before);
}
