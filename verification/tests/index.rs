use arbitrage_graph::index::TextMap;

#[test]
fn text_map_keeps_the_last_value_of_a_key() {
    let mut map: TextMap<u32> = TextMap::new();
    assert_eq!(map.get(&"ETH".to_string()), None);
    assert!(!map.contains_key(&"ETH".to_string()));
    map.insert("ETH".to_string(), 1);
    map.insert("USDC".to_string(), 2);
    map.insert("".to_string(), 3);
    assert_eq!(map.get(&"ETH".to_string()), Some(&1));
    assert_eq!(map.get(&"USDC".to_string()), Some(&2));
    assert_eq!(map.get(&"".to_string()), Some(&3));
    assert_eq!(map.get(&"eth".to_string()), None);
    map.insert("ETH".to_string(), 7);
    assert_eq!(map.get(&"ETH".to_string()), Some(&7));
    assert_eq!(map.get(&"USDC".to_string()), Some(&2));
    assert!(map.contains_key(&"USDC".to_string()));
}

#[test]
fn text_map_holds_many_keys() {
    let mut map: TextMap<usize> = TextMap::new();
    for i in 0..2000usize {
        map.insert(format!("0x{:040x}", i * 7919), i);
    }
    for i in 0..2000usize {
        assert_eq!(map.get(&format!("0x{:040x}", i * 7919)), Some(&i));
    }
    assert_eq!(map.get(&format!("0x{:040x}", 1)), None);
    for i in 0..2000usize {
        map.insert(format!("0x{:040x}", i * 7919), i + 1);
    }
    for i in 0..2000usize {
        assert_eq!(map.get(&format!("0x{:040x}", i * 7919)), Some(&(i + 1)));
    }
}
