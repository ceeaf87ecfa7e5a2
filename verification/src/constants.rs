//! The networks that the program knows.

use vstd::prelude::*;
use vstd::string::StringExecFns;

verus! {

/// The key sent to the indexer.
pub const TYCHO_API_KEY: &'static str = "sampletoken";

/// A network and where to reach it.
#[derive(Debug, Clone, PartialEq, Eq)]
pub struct Network {
    pub name: String,
    pub chainid: u64,
    pub rpc: String,
    pub explorer: String,
    pub tycho_url: String,
    pub router: String,
    pub permit2: String,
    pub block_time_ms: u64,
}

pub struct NetworkView {
    pub name: Seq<char>,
    pub chainid: u64,
    pub rpc: Seq<char>,
    pub explorer: Seq<char>,
    pub tycho_url: Seq<char>,
    pub router: Seq<char>,
    pub permit2: Seq<char>,
    pub block_time_ms: u64,
}

impl View for Network {
    type V = NetworkView;

    open spec fn view(&self) -> NetworkView {
        NetworkView {
            name: self.name@,
            chainid: self.chainid,
            rpc: self.rpc@,
            explorer: self.explorer@,
            tycho_url: self.tycho_url@,
            router: self.router@,
            permit2: self.permit2@,
            block_time_ms: self.block_time_ms,
        }
    }
}

impl Network {
    /// The address at which the network's indexer is reached.
    pub fn tycho_endpoint(&self) -> (r: String)
        ensures
            r@ == "https://"@ + self@.tycho_url,
    {
        let mut r = "https://".to_owned();
        r.append(self.tycho_url.as_str());
        r
    }
}

/// The views of networks.
pub open spec fn network_views(networks: Seq<Network>) -> Seq<NetworkView> {
    networks.map_values(|n: Network| n@)
}

/// The known networks.
pub open spec fn known_networks() -> Seq<NetworkView> {
    seq![
        NetworkView {
            name: "ethereum"@,
            chainid: 1,
            rpc: "https://ethereum-rpc.publicnode.com"@,
            explorer: "https://etherscan.io/"@,
            tycho_url: "tycho-beta.propellerheads.xyz"@,
            router: "0xfD0b31d2E955fA55e3fa641Fe90e08b677188d35"@,
            permit2: "0x000000000022D473030F116dDEE9F6B43aC78BA3"@,
            block_time_ms: 12000,
        },
        NetworkView {
            name: "base"@,
            chainid: 8453,
            rpc: "https://base.llamarpc.com"@,
            explorer: "https://basescan.io/"@,
            tycho_url: "tycho-base-beta.propellerheads.xyz"@,
            router: "0xea3207778e39EB02D72C9D3c4Eac7E224ac5d369"@,
            permit2: "0x000000000022D473030F116dDEE9F6B43aC78BA3"@,
            block_time_ms: 250,
        },
        NetworkView {
            name: "unichain"@,
            chainid: 130,
            rpc: "https://unichain.drpc.org"@,
            explorer: "https://uniscan.xyz/"@,
            tycho_url: "tycho-unichain-beta.propellerheads.xyz"@,
            router: "0xFfA5ec2e444e4285108e4a17b82dA495c178427B"@,
            permit2: "0x000000000022D473030F116dDEE9F6B43aC78BA3"@,
            block_time_ms: 1000,
        },
    ]
}

/// The known network that is called `name`, if there is one.
pub open spec fn network_named(name: Seq<char>) -> Option<NetworkView> {
    if known_networks()[0].name == name {
        Some(known_networks()[0])
    } else if known_networks()[1].name == name {
        Some(known_networks()[1])
    } else if known_networks()[2].name == name {
        Some(known_networks()[2])
    } else {
        None
    }
}

/// A network is found under its own name, and no name finds a network that
/// is called otherwise.
pub proof fn lemma_network_named(name: Seq<char>)
    ensures
        match network_named(name) {
            Some(n) => n.name == name && exists|i: int|
                0 <= i < known_networks().len() && known_networks()[i] == n,
            None => forall|i: int|
                0 <= i < known_networks().len() ==> (#[trigger] known_networks()[i]).name != name,
        },
        forall|i: int|
            0 <= i < known_networks().len() ==> network_named(
                (#[trigger] known_networks()[i]).name,
            ) == Some(known_networks()[i]),
{
    reveal_strlit("ethereum");
    reveal_strlit("base");
    reveal_strlit("unichain");
    let table = known_networks();
    assert(table[0].name.len() == 8 && table[0].name[0] == 'e');
    assert(table[1].name.len() == 4);
    assert(table[2].name.len() == 8 && table[2].name[0] == 'u');
    match network_named(name) {
        Some(n) => {
            if table[0].name == name {
                assert(table[0] == n);
            } else if table[1].name == name {
                assert(table[1] == n);
            } else {
                assert(table[2] == n);
            }
        },
        None => {},
    }
}

/// The known network that is called `name`, if there is one.
pub fn network(name: String) -> (r: Option<Network>)
    ensures
        match r {
            Some(n) => network_named(name@) == Some(n@),
            None => network_named(name@) is None,
        },
{
    let mut all = networks();
    let mut found: Option<Network> = None;
    proof {
        assert(known_networks().len() == 3);
        assert(known_networks().take(3) =~= known_networks());
    }
    while all.len() > 0
        invariant
            all@.len() <= 3,
            network_views(all@) == known_networks().take(all@.len() as int),
            match found {
                Some(n) => exists|i: int|
                    all@.len() <= i < 3 && known_networks()[i] == n@ && n@.name == name@ && forall|
                        j: int,
                    |
                        all@.len() <= j < i ==> known_networks()[j].name != name@,
                None => forall|j: int| all@.len() <= j < 3 ==> known_networks()[j].name != name@,
            },
        decreases all@.len(),
    {
        let ghost before = all@;
        let last = all.pop();
        proof {
            assert(network_views(all@) =~= known_networks().take(all@.len() as int));
            assert(network_views(before)[before.len() - 1] == known_networks()[before.len() - 1]);
        }
        match last {
            Some(n) => {
                if n.name == name {
                    found = Some(n);
                }
            },
            None => {},
        }
    }
    found
}

/// The known networks.
pub fn networks() -> (r: Vec<Network>)
    ensures
        network_views(r@) == known_networks(),
{
    let mut r: Vec<Network> = Vec::new();
    r.push(
        Network {
            chainid: 1,
            name: "ethereum".to_owned(),
            rpc: "https://ethereum-rpc.publicnode.com".to_owned(),
            explorer: "https://etherscan.io/".to_owned(),
            tycho_url: "tycho-beta.propellerheads.xyz".to_owned(),
            permit2: "0x000000000022D473030F116dDEE9F6B43aC78BA3".to_owned(),
            router: "0xfD0b31d2E955fA55e3fa641Fe90e08b677188d35".to_owned(),
            block_time_ms: 12000,
        },
    );
    r.push(
        Network {
            chainid: 8453,
            name: "base".to_owned(),
            rpc: "https://base.llamarpc.com".to_owned(),
            explorer: "https://basescan.io/".to_owned(),
            tycho_url: "tycho-base-beta.propellerheads.xyz".to_owned(),
            permit2: "0x000000000022D473030F116dDEE9F6B43aC78BA3".to_owned(),
            router: "0xea3207778e39EB02D72C9D3c4Eac7E224ac5d369".to_owned(),
            block_time_ms: 250,
        },
    );
    r.push(
        Network {
            chainid: 130,
            name: "unichain".to_owned(),
            rpc: "https://unichain.drpc.org".to_owned(),
            explorer: "https://uniscan.xyz/".to_owned(),
            tycho_url: "tycho-unichain-beta.propellerheads.xyz".to_owned(),
            permit2: "0x000000000022D473030F116dDEE9F6B43aC78BA3".to_owned(),
            router: "0xFfA5ec2e444e4285108e4a17b82dA495c178427B".to_owned(),
            block_time_ms: 1000,
        },
    );
    proof {
        assert(network_views(r@) =~= known_networks());
    }
    r
}

} // verus!
