//! The configuration of the program and the rules it has to meet.

use vstd::prelude::*;
use vstd::string::StringExecFns;
use std::str::FromStr;
use tycho_common::models::chain_config::ChainConfigError;
use tycho_common::models::Chain;

verus! {

/// A token to follow on a chain.
#[derive(Debug, Clone, PartialEq, Eq)]
pub struct TokenConfig {
    pub symbol: String,
    pub address: String,
}

pub struct TokenConfigView {
    pub symbol: Seq<char>,
    pub address: Seq<char>,
}

impl View for TokenConfig {
    type V = TokenConfigView;

    open spec fn view(&self) -> TokenConfigView {
        TokenConfigView { symbol: self.symbol@, address: self.address@ }
    }
}

/// A chain to follow, with its tokens.
#[derive(Debug, Clone, PartialEq, Eq)]
pub struct ChainConfig {
    pub name: String,
    pub tokens: Vec<TokenConfig>,
}

pub struct ChainConfigView {
    pub name: Seq<char>,
    pub tokens: Seq<TokenConfigView>,
}

impl View for ChainConfig {
    type V = ChainConfigView;

    open spec fn view(&self) -> ChainConfigView {
        ChainConfigView {
            name: self.name@,
            tokens: self.tokens@.map_values(|t: TokenConfig| t@),
        }
    }
}

/// The configuration of the program.
#[derive(Debug, Clone, PartialEq, Eq)]
pub struct Config {
    pub private_key: String,
    pub risk_param: u64,
    pub rpc_url: String,
    pub chains: Vec<ChainConfig>,
}

pub struct ConfigView {
    pub private_key: Seq<char>,
    pub risk_param: u64,
    pub rpc_url: Seq<char>,
    pub chains: Seq<ChainConfigView>,
}

impl View for Config {
    type V = ConfigView;

    open spec fn view(&self) -> ConfigView {
        ConfigView {
            private_key: self.private_key@,
            risk_param: self.risk_param,
            rpc_url: self.rpc_url@,
            chains: self.chains@.map_values(|c: ChainConfig| c@),
        }
    }
}

/// What is wrong with a configuration.
#[derive(Debug, Clone, PartialEq, Eq)]
pub enum ConfigError {
    /// The private key is empty.
    MissingPrivateKey,
    /// No chain is configured.
    NoChains,
    /// Fewer than two chains are configured.
    TooFewChains,
    /// No chain is known by this name.
    UnknownChainName(String),
    /// The chain of this name has no token.
    NoTokens(String),
    /// The token at this address has no symbol.
    MissingSymbol(String),
    /// The token of this symbol has no address.
    MissingAddress(String),
    /// The token of this symbol is configured on one chain only.
    TokenOnOneChain(String),
}

pub enum ConfigErrorView {
    MissingPrivateKey,
    NoChains,
    TooFewChains,
    UnknownChainName(Seq<char>),
    NoTokens(Seq<char>),
    MissingSymbol(Seq<char>),
    MissingAddress(Seq<char>),
    TokenOnOneChain(Seq<char>),
}

impl View for ConfigError {
    type V = ConfigErrorView;

    open spec fn view(&self) -> ConfigErrorView {
        match self {
            ConfigError::MissingPrivateKey => ConfigErrorView::MissingPrivateKey,
            ConfigError::NoChains => ConfigErrorView::NoChains,
            ConfigError::TooFewChains => ConfigErrorView::TooFewChains,
            ConfigError::UnknownChainName(s) => ConfigErrorView::UnknownChainName(s@),
            ConfigError::NoTokens(s) => ConfigErrorView::NoTokens(s@),
            ConfigError::MissingSymbol(s) => ConfigErrorView::MissingSymbol(s@),
            ConfigError::MissingAddress(s) => ConfigErrorView::MissingAddress(s@),
            ConfigError::TokenOnOneChain(s) => ConfigErrorView::TokenOnOneChain(s@),
        }
    }
}

/// The text that tells of an error.
pub open spec fn error_message(e: ConfigErrorView) -> Seq<char> {
    match e {
        ConfigErrorView::MissingPrivateKey => "Private key is required"@,
        ConfigErrorView::NoChains => "Chain configuration is required"@,
        ConfigErrorView::TooFewChains => "At least two chains are required"@,
        ConfigErrorView::UnknownChainName(s) => "Unknown chain name: "@ + s,
        ConfigErrorView::NoTokens(s) => "At least one token is required for chain: "@ + s,
        ConfigErrorView::MissingSymbol(s) => "Symbol is required for token: "@ + s,
        ConfigErrorView::MissingAddress(s) => "Address is required for token: "@ + s,
        ConfigErrorView::TokenOnOneChain(s) => "Token "@ + s + " is not present on multiple chains"@,
    }
}

impl ConfigError {
    /// The text that tells of the error.
    pub fn message(&self) -> (r: String)
        ensures
            r@ == error_message(self@),
    {
        match self {
            ConfigError::MissingPrivateKey => "Private key is required".to_owned(),
            ConfigError::NoChains => "Chain configuration is required".to_owned(),
            ConfigError::TooFewChains => "At least two chains are required".to_owned(),
            ConfigError::UnknownChainName(s) => {
                let mut r = "Unknown chain name: ".to_owned();
                r.append(s.as_str());
                r
            },
            ConfigError::NoTokens(s) => {
                let mut r = "At least one token is required for chain: ".to_owned();
                r.append(s.as_str());
                r
            },
            ConfigError::MissingSymbol(s) => {
                let mut r = "Symbol is required for token: ".to_owned();
                r.append(s.as_str());
                r
            },
            ConfigError::MissingAddress(s) => {
                let mut r = "Address is required for token: ".to_owned();
                r.append(s.as_str());
                r
            },
            ConfigError::TokenOnOneChain(s) => {
                let mut r = "Token ".to_owned();
                r.append(s.as_str());
                r.append(" is not present on multiple chains");
                r
            },
        }
    }
}

/// `tycho_common::models::Chain`, taken as a value that cannot be looked
/// into.
#[verifier::external_type_specification]
#[verifier::external_body]
pub struct ExChain(Chain);

/// `tycho_common::models::chain_config::ChainConfigError`, the error of a
/// chain name that does not resolve, taken as a value that cannot be looked
/// into.
#[verifier::external_type_specification]
#[verifier::external_body]
pub struct ExChainConfigError(ChainConfigError);

/// Whether `name` is the name of one of the chains that `tycho_common` has
/// built in.
pub open spec fn is_builtin_chain_name(name: Seq<char>) -> bool {
    ||| name == "ethereum"@
    ||| name == "starknet"@
    ||| name == "zksync"@
    ||| name == "arbitrum"@
    ||| name == "base"@
    ||| name == "bsc"@
    ||| name == "unichain"@
    ||| name == "polygon"@
    ||| name == "plasma"@
    ||| name == "robinhood"@
    ||| name == "arc"@
}

/// `Chain::from_str` of `tycho_common`: the name of a built-in chain resolves.
/// Whether another name resolves depends on the chains that the process has
/// registered, so nothing is said of it.
pub assume_specification[ <Chain as FromStr>::from_str ](s: &str) -> (r: Result<
    Chain,
    <Chain as FromStr>::Err,
>)
    ensures
        is_builtin_chain_name(s@) ==> r is Ok,
;

/// The first problem of a list, if it has one.
pub open spec fn first_problem(problems: Seq<Option<ConfigErrorView>>) -> Option<ConfigErrorView>
    decreases problems.len(),
{
    if problems.len() == 0 {
        None
    } else if problems[0] is Some {
        problems[0]
    } else {
        first_problem(problems.drop_first())
    }
}

/// What is wrong with a chain whose name did or did not resolve.
pub open spec fn name_problem(c: ChainConfigView, known: bool) -> Option<ConfigErrorView> {
    if known {
        None
    } else {
        Some(ConfigErrorView::UnknownChainName(c.name))
    }
}

/// What is wrong with a token by itself.
pub open spec fn token_problem(t: TokenConfigView) -> Option<ConfigErrorView> {
    if t.symbol.len() == 0 {
        Some(ConfigErrorView::MissingSymbol(t.address))
    } else if t.address.len() == 0 {
        Some(ConfigErrorView::MissingAddress(t.symbol))
    } else {
        None
    }
}

/// What is wrong with a chain by itself: it has no token, or the first of its
/// tokens that has a problem has it.
pub open spec fn chain_problem(c: ChainConfigView) -> Option<ConfigErrorView> {
    if c.tokens.len() == 0 {
        Some(ConfigErrorView::NoTokens(c.name))
    } else {
        first_problem(c.tokens.map_values(|t: TokenConfigView| token_problem(t)))
    }
}

/// Whether the chain lists a token of the symbol `symbol`.
pub open spec fn chain_lists(c: ChainConfigView, symbol: Seq<char>) -> bool {
    exists|j: int| 0 <= j < c.tokens.len() && #[trigger] c.tokens[j].symbol == symbol
}

/// Whether two chains of different names list a token of the symbol `symbol`.
pub open spec fn on_several_chains(chains: Seq<ChainConfigView>, symbol: Seq<char>) -> bool {
    exists|a: int, b: int|
        0 <= a < chains.len() && 0 <= b < chains.len() && (#[trigger] chains[a]).name != (
        #[trigger] chains[b]).name && chain_lists(chains[a], symbol) && chain_lists(
            chains[b],
            symbol,
        )
}

/// What is wrong with a token among the chains: it is on one chain only.
pub open spec fn spread_problem(chains: Seq<ChainConfigView>, t: TokenConfigView) -> Option<
    ConfigErrorView,
> {
    if on_several_chains(chains, t.symbol) {
        None
    } else {
        Some(ConfigErrorView::TokenOnOneChain(t.symbol))
    }
}

/// The first of a chain's tokens that is on one chain only.
pub open spec fn chain_spread_problem(chains: Seq<ChainConfigView>, c: ChainConfigView) -> Option<
    ConfigErrorView,
> {
    first_problem(c.tokens.map_values(|t: TokenConfigView| spread_problem(chains, t)))
}

/// Whether the name of the chain `i` resolved, going by `known`. A chain for
/// which `known` says nothing did not resolve.
pub open spec fn resolved(known: Seq<bool>, i: int) -> bool {
    0 <= i < known.len() && known[i]
}

/// What is wrong with a configuration, if anything is, where `known` tells of
/// each chain whether its name resolved. The rules, in the order in which
/// they are held against it: a private key; two chains or more; each chain's
/// name resolves; each chain has a token and each token a symbol and an
/// address; each token is on two chains of different names, or more.
pub open spec fn config_problem(cfg: ConfigView, known: Seq<bool>) -> Option<ConfigErrorView> {
    if cfg.private_key.len() == 0 {
        Some(ConfigErrorView::MissingPrivateKey)
    } else if cfg.chains.len() == 0 {
        Some(ConfigErrorView::NoChains)
    } else if cfg.chains.len() < 2 {
        Some(ConfigErrorView::TooFewChains)
    } else {
        let names = first_problem(
            Seq::new(cfg.chains.len(), |i: int| name_problem(cfg.chains[i], resolved(known, i))),
        );
        let contents = first_problem(cfg.chains.map_values(|c: ChainConfigView| chain_problem(c)));
        let spread = first_problem(
            cfg.chains.map_values(|c: ChainConfigView| chain_spread_problem(cfg.chains, c)),
        );
        if names is Some {
            names
        } else if contents is Some {
            contents
        } else {
            spread
        }
    }
}

/// One step of `first_problem`.
proof fn lemma_first_problem_step(problems: Seq<Option<ConfigErrorView>>, i: int)
    requires
        0 <= i < problems.len(),
    ensures
        first_problem(problems.skip(i)) == if problems[i] is Some {
            problems[i]
        } else {
            first_problem(problems.skip(i + 1))
        },
{
    assert(problems.skip(i).drop_first() =~= problems.skip(i + 1));
}

/// What is wrong with a token by itself.
fn check_token(t: &TokenConfig) -> (r: Option<ConfigError>)
    ensures
        r.is_some() == token_problem(t@).is_some(),
        r matches Some(e) ==> token_problem(t@) == Some(e@),
{
    if t.symbol.as_str().is_empty() {
        Some(ConfigError::MissingSymbol(t.address.clone()))
    } else if t.address.as_str().is_empty() {
        Some(ConfigError::MissingAddress(t.symbol.clone()))
    } else {
        None
    }
}

/// What is wrong with a chain by itself.
fn check_chain(c: &ChainConfig) -> (r: Option<ConfigError>)
    ensures
        r.is_some() == chain_problem(c@).is_some(),
        r matches Some(e) ==> chain_problem(c@) == Some(e@),
{
    if c.tokens.len() == 0 {
        return Some(ConfigError::NoTokens(c.name.clone()));
    }
    let ghost problems = c@.tokens.map_values(|t: TokenConfigView| token_problem(t));
    let mut j: usize = 0;
    proof {
        assert(problems.skip(0) =~= problems);
    }
    while j < c.tokens.len()
        invariant
            j <= c.tokens.len(),
            problems == c@.tokens.map_values(|t: TokenConfigView| token_problem(t)),
            first_problem(problems) == first_problem(problems.skip(j as int)),
        decreases c.tokens.len() - j,
    {
        proof {
            lemma_first_problem_step(problems, j as int);
            assert(problems[j as int] == token_problem(c.tokens@[j as int]@));
        }
        match check_token(&c.tokens[j]) {
            Some(e) => {
                return Some(e);
            },
            None => {},
        }
        j = j + 1;
    }
    None
}

/// Whether the chain lists a token of the symbol `symbol`.
fn lists_symbol(c: &ChainConfig, symbol: &String) -> (r: bool)
    ensures
        r == chain_lists(c@, symbol@),
{
    let mut j: usize = 0;
    while j < c.tokens.len()
        invariant
            j <= c.tokens.len(),
            forall|k: int| 0 <= k < j ==> (#[trigger] c@.tokens[k]).symbol != symbol@,
        decreases c.tokens.len() - j,
    {
        if c.tokens[j].symbol == *symbol {
            proof {
                assert(c@.tokens[j as int].symbol == symbol@);
            }
            return true;
        }
        j = j + 1;
    }
    false
}

/// Whether two chains of different names list a token of the symbol `symbol`.
fn is_on_several_chains(chains: &Vec<ChainConfig>, symbol: &String) -> (r: bool)
    ensures
        r == on_several_chains(chains@.map_values(|c: ChainConfig| c@), symbol@),
{
    let ghost views = chains@.map_values(|c: ChainConfig| c@);
    let mut a: usize = 0;
    while a < chains.len()
        invariant
            a <= chains.len(),
            views == chains@.map_values(|c: ChainConfig| c@),
            forall|k: int| 0 <= k < a ==> !chain_lists(#[trigger] views[k], symbol@),
        decreases chains.len() - a,
    {
        if lists_symbol(&chains[a], symbol) {
            let mut b: usize = 0;
            while b < chains.len()
                invariant
                    a < chains.len(),
                    b <= chains.len(),
                    views == chains@.map_values(|c: ChainConfig| c@),
                    chain_lists(views[a as int], symbol@),
                    forall|k: int|
                        0 <= k < b ==> !(chain_lists(#[trigger] views[k], symbol@) && views[k].name
                            != views[a as int].name),
                decreases chains.len() - b,
            {
                if lists_symbol(&chains[b], symbol) && chains[b].name != chains[a].name {
                    proof {
                        assert(views[a as int].name != views[b as int].name);
                    }
                    return true;
                }
                b = b + 1;
            }
            return false;
        }
        a = a + 1;
    }
    false
}

/// The first of a chain's tokens that is on one chain only.
fn check_chain_spread(chains: &Vec<ChainConfig>, c: &ChainConfig) -> (r: Option<ConfigError>)
    ensures
        r.is_some() == chain_spread_problem(
            chains@.map_values(|c: ChainConfig| c@),
            c@,
        ).is_some(),
        r matches Some(e) ==> chain_spread_problem(chains@.map_values(|c: ChainConfig| c@), c@)
            == Some(e@),
{
    let ghost views = chains@.map_values(|c: ChainConfig| c@);
    let ghost problems = c@.tokens.map_values(|t: TokenConfigView| spread_problem(views, t));
    let mut j: usize = 0;
    proof {
        assert(problems.skip(0) =~= problems);
    }
    while j < c.tokens.len()
        invariant
            j <= c.tokens.len(),
            views == chains@.map_values(|c: ChainConfig| c@),
            problems == c@.tokens.map_values(|t: TokenConfigView| spread_problem(views, t)),
            first_problem(problems) == first_problem(problems.skip(j as int)),
        decreases c.tokens.len() - j,
    {
        proof {
            lemma_first_problem_step(problems, j as int);
            assert(problems[j as int] == spread_problem(views, c.tokens@[j as int]@));
        }
        if !is_on_several_chains(chains, &c.tokens[j].symbol) {
            return Some(ConfigError::TokenOnOneChain(c.tokens[j].symbol.clone()));
        }
        j = j + 1;
    }
    None
}

/// Holds a configuration against the rules, where `known` tells of each chain
/// whether its name resolved, and returns the first rule that it breaks.
pub fn check_config(config: &Config, known: &Vec<bool>) -> (r: Result<(), ConfigError>)
    ensures
        match r {
            Ok(()) => config_problem(config@, known@) is None,
            Err(e) => config_problem(config@, known@) == Some(e@),
        },
{
    if config.private_key.as_str().is_empty() {
        return Err(ConfigError::MissingPrivateKey);
    }
    if config.chains.len() == 0 {
        return Err(ConfigError::NoChains);
    }
    if config.chains.len() < 2 {
        return Err(ConfigError::TooFewChains);
    }
    let ghost chains = config@.chains;
    let ghost names = Seq::new(
        chains.len(),
        |i: int| name_problem(chains[i], resolved(known@, i)),
    );
    let ghost contents = chains.map_values(|c: ChainConfigView| chain_problem(c));
    let ghost spread = chains.map_values(|c: ChainConfigView| chain_spread_problem(chains, c));
    let mut i: usize = 0;
    proof {
        assert(names.skip(0) =~= names);
        assert(contents.skip(0) =~= contents);
        assert(spread.skip(0) =~= spread);
    }
    while i < config.chains.len()
        invariant
            i <= config.chains.len(),
            chains == config@.chains,
            config@.private_key.len() > 0,
            chains.len() >= 2,
            names == Seq::new(chains.len(), |i: int| name_problem(chains[i], resolved(known@, i))),
            first_problem(names) == first_problem(names.skip(i as int)),
        decreases config.chains.len() - i,
    {
        proof {
            lemma_first_problem_step(names, i as int);
            assert(chains[i as int].name == config.chains@[i as int].name@);
        }
        if !(i < known.len() && known[i]) {
            return Err(ConfigError::UnknownChainName(config.chains[i].name.clone()));
        }
        i = i + 1;
    }
    i = 0;
    while i < config.chains.len()
        invariant
            i <= config.chains.len(),
            chains == config@.chains,
            config@.private_key.len() > 0,
            chains.len() >= 2,
            names == Seq::new(chains.len(), |i: int| name_problem(chains[i], resolved(known@, i))),
            first_problem(names) is None,
            contents == chains.map_values(|c: ChainConfigView| chain_problem(c)),
            first_problem(contents) == first_problem(contents.skip(i as int)),
        decreases config.chains.len() - i,
    {
        proof {
            lemma_first_problem_step(contents, i as int);
            assert(contents[i as int] == chain_problem(config.chains@[i as int]@));
        }
        match check_chain(&config.chains[i]) {
            Some(e) => {
                return Err(e);
            },
            None => {},
        }
        i = i + 1;
    }
    i = 0;
    while i < config.chains.len()
        invariant
            i <= config.chains.len(),
            chains == config@.chains,
            config@.private_key.len() > 0,
            chains.len() >= 2,
            names == Seq::new(chains.len(), |i: int| name_problem(chains[i], resolved(known@, i))),
            first_problem(names) is None,
            contents == chains.map_values(|c: ChainConfigView| chain_problem(c)),
            first_problem(contents) is None,
            spread == chains.map_values(|c: ChainConfigView| chain_spread_problem(chains, c)),
            first_problem(spread) == first_problem(spread.skip(i as int)),
        decreases config.chains.len() - i,
    {
        proof {
            lemma_first_problem_step(spread, i as int);
            assert(spread[i as int] == chain_spread_problem(chains, config.chains@[i as int]@));
        }
        match check_chain_spread(&config.chains, &config.chains[i]) {
            Some(e) => {
                return Err(e);
            },
            None => {},
        }
        i = i + 1;
    }
    Ok(())
}

/// What `known` may be for a configuration: it tells of each chain, and of a
/// chain that `tycho_common` has built in it tells that its name resolves.
pub open spec fn may_be_known(cfg: ConfigView, known: Seq<bool>) -> bool {
    &&& known.len() == cfg.chains.len()
    &&& forall|i: int|
        0 <= i < known.len() && is_builtin_chain_name(cfg.chains[i].name) ==> #[trigger] known[i]
}

/// Every name resolves.
pub open spec fn all_known(cfg: ConfigView) -> Seq<bool> {
    Seq::new(cfg.chains.len(), |i: int| true)
}

/// Whether every chain of the configuration has the name of a chain that
/// `tycho_common` has built in.
pub open spec fn names_built_in(cfg: ConfigView) -> bool {
    forall|i: int| 0 <= i < cfg.chains.len() ==> is_builtin_chain_name(#[trigger] cfg.chains[i].name)
}

/// Holds a configuration against the rules and returns the first that it
/// breaks. Each chain's name is resolved as `Chain::from_str` of
/// `tycho_common` resolves it: where all names are those of built-in chains
/// the outcome is that of `config_problem` with every name known, and in any
/// case it is that of `config_problem` for some way in which the other names
/// may have resolved.
pub fn validate_config(config: &Config) -> (r: Result<(), ConfigError>)
    ensures
        exists|known: Seq<bool>|
            may_be_known(config@, known) && match r {
                Ok(()) => #[trigger] config_problem(config@, known) is None,
                Err(e) => config_problem(config@, known) == Some(e@),
            },
        names_built_in(config@) ==> match r {
            Ok(()) => config_problem(config@, all_known(config@)) is None,
            Err(e) => config_problem(config@, all_known(config@)) == Some(e@),
        },
{
    let mut known: Vec<bool> = Vec::new();
    let mut i: usize = 0;
    while i < config.chains.len()
        invariant
            i <= config.chains.len(),
            known@.len() == i,
            forall|k: int|
                0 <= k < i && is_builtin_chain_name(config@.chains[k].name) ==> #[trigger] known@[k],
        decreases config.chains.len() - i,
    {
        let resolves = match Chain::from_str(config.chains[i].name.as_str()) {
            Ok(_) => true,
            Err(_) => false,
        };
        proof {
            assert(config@.chains[i as int].name == config.chains@[i as int].name@);
        }
        known.push(resolves);
        i = i + 1;
    }
    let r = check_config(config, &known);
    proof {
        assert(may_be_known(config@, known@));
        if names_built_in(config@) {
            assert(known@ =~= all_known(config@));
        }
    }
    r
}

} // verus!
