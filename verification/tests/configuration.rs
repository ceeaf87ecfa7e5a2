use arbitrage_graph::configuration::{
    check_config, validate_config, ChainConfig, Config, ConfigError, TokenConfig,
};

fn token(symbol: &str, address: &str) -> TokenConfig {
    TokenConfig { symbol: symbol.to_string(), address: address.to_string() }
}

fn chain(name: &str, tokens: Vec<TokenConfig>) -> ChainConfig {
    ChainConfig { name: name.to_string(), tokens }
}

fn good_config() -> Config {
    Config {
        private_key: "0xkey".to_string(),
        risk_param: 3,
        rpc_url: "https://rpc.example".to_string(),
        chains: vec![
            chain("ethereum", vec![token("ETH", "0xe1"), token("USDC", "0xc1")]),
            chain("base", vec![token("USDC", "0xc2"), token("ETH", "0xe2")]),
        ],
    }
}

#[test]
fn good_config_passes() {
    assert_eq!(validate_config(&good_config()), Ok(()));
    assert_eq!(check_config(&good_config(), &vec![true, true]), Ok(()));
}

#[test]
fn empty_private_key_is_refused_first() {
    let mut config = good_config();
    config.private_key = String::new();
    config.chains.clear();
    assert_eq!(validate_config(&config), Err(ConfigError::MissingPrivateKey));
    assert_eq!(ConfigError::MissingPrivateKey.message(), "Private key is required");
}

#[test]
fn no_chain_and_one_chain_are_refused() {
    let mut config = good_config();
    config.chains.truncate(1);
    assert_eq!(validate_config(&config), Err(ConfigError::TooFewChains));
    assert_eq!(ConfigError::TooFewChains.message(), "At least two chains are required");
    config.chains.clear();
    assert_eq!(validate_config(&config), Err(ConfigError::NoChains));
    assert_eq!(ConfigError::NoChains.message(), "Chain configuration is required");
}

#[test]
fn unknown_chain_name_is_refused() {
    let mut config = good_config();
    config.chains[1].name = "no-such-chain".to_string();
    let err = validate_config(&config).unwrap_err();
    assert_eq!(err, ConfigError::UnknownChainName("no-such-chain".to_string()));
    assert_eq!(err.message(), "Unknown chain name: no-such-chain");
}

#[test]
fn every_built_in_chain_name_resolves() {
    let names = [
        "ethereum", "starknet", "zksync", "arbitrum", "base", "bsc", "unichain", "polygon",
        "plasma", "robinhood", "arc",
    ];
    for name in names {
        let mut config = good_config();
        config.chains[0].name = name.to_string();
        config.chains[1].name = if name == "base" { "ethereum" } else { "base" }.to_string();
        assert_eq!(validate_config(&config), Ok(()));
    }
}

#[test]
fn name_is_held_to_what_known_says() {
    let config = good_config();
    assert_eq!(
        check_config(&config, &vec![true, false]),
        Err(ConfigError::UnknownChainName("base".to_string()))
    );
    assert_eq!(
        check_config(&config, &vec![false, false]),
        Err(ConfigError::UnknownChainName("ethereum".to_string()))
    );
    assert_eq!(
        check_config(&config, &vec![true]),
        Err(ConfigError::UnknownChainName("base".to_string()))
    );
    assert_eq!(check_config(&config, &vec![true, true, false]), Ok(()));
}

#[test]
fn chain_without_tokens_is_refused() {
    let mut config = good_config();
    config.chains[1].tokens.clear();
    let err = validate_config(&config).unwrap_err();
    assert_eq!(err, ConfigError::NoTokens("base".to_string()));
    assert_eq!(err.message(), "At least one token is required for chain: base");
}

#[test]
fn token_without_symbol_or_address_is_refused() {
    let mut config = good_config();
    config.chains[0].tokens[1].symbol = String::new();
    let err = validate_config(&config).unwrap_err();
    assert_eq!(err, ConfigError::MissingSymbol("0xc1".to_string()));
    assert_eq!(err.message(), "Symbol is required for token: 0xc1");

    let mut config = good_config();
    config.chains[1].tokens[0].address = String::new();
    let err = validate_config(&config).unwrap_err();
    assert_eq!(err, ConfigError::MissingAddress("USDC".to_string()));
    assert_eq!(err.message(), "Address is required for token: USDC");

    let mut config = good_config();
    config.chains[0].tokens[0] = token("", "");
    assert_eq!(validate_config(&config), Err(ConfigError::MissingSymbol(String::new())));
}

#[test]
fn token_on_one_chain_is_refused() {
    let mut config = good_config();
    config.chains[0].tokens.push(token("DAI", "0xd1"));
    let err = validate_config(&config).unwrap_err();
    assert_eq!(err, ConfigError::TokenOnOneChain("DAI".to_string()));
    assert_eq!(err.message(), "Token DAI is not present on multiple chains");
}

#[test]
fn two_chains_of_one_name_count_once() {
    let mut config = good_config();
    config.chains[1].name = "ethereum".to_string();
    assert_eq!(validate_config(&config), Err(ConfigError::TokenOnOneChain("ETH".to_string())));
    config.chains.push(chain("base", vec![token("ETH", "0xe3")]));
    assert_eq!(validate_config(&config), Err(ConfigError::TokenOnOneChain("USDC".to_string())));
}

#[test]
fn earlier_rule_wins() {
    let mut config = good_config();
    config.chains[0].tokens.clear();
    config.chains[1].name = "nowhere".to_string();
    assert_eq!(
        validate_config(&config),
        Err(ConfigError::UnknownChainName("nowhere".to_string()))
    );
}
