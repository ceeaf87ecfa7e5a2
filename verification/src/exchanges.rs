//! Which exchanges are followed on which chain.

use vstd::prelude::*;
use crate::protocol::Protocol;

verus! {

/// The chain id of Ethereum.
pub const ETHEREUM: u64 = 1;

/// The chain id of Base.
pub const BASE: u64 = 8453;

/// The chain id of Unichain.
pub const UNICHAIN: u64 = 130;

/// The kind of pool state that an exchange's messages decode into.
#[derive(Debug, Clone, Copy, PartialEq, Eq, Structural)]
pub enum StateKind {
    UniswapV2,
    UniswapV3,
    UniswapV4,
    Ekubo,
    /// A state that is simulated on a virtual machine.
    Vm,
}

/// The pools of an exchange that are left out.
#[derive(Debug, Clone, Copy, PartialEq, Eq, Structural)]
pub enum PoolFilter {
    /// None is left out.
    Everything,
    /// Uniswap v4 pools with hooks are left out.
    UniswapV4Hooks,
    /// The Balancer v2 pools that cannot be simulated are left out.
    BalancerV2,
    /// The Curve pools that cannot be simulated are left out.
    Curve,
}

/// An exchange to follow: its protocol, what its states decode into and which
/// of its pools are left out.
#[derive(Debug, Clone, Copy, PartialEq, Eq, Structural)]
pub struct Exchange {
    pub protocol: Protocol,
    pub state: StateKind,
    pub filter: PoolFilter,
}

/// The exchanges that every followed chain has.
pub open spec fn uniswap_exchanges() -> Seq<Exchange> {
    seq![
        Exchange {
            protocol: Protocol::UniswapV2,
            state: StateKind::UniswapV2,
            filter: PoolFilter::Everything,
        },
        Exchange {
            protocol: Protocol::UniswapV3,
            state: StateKind::UniswapV3,
            filter: PoolFilter::Everything,
        },
        Exchange {
            protocol: Protocol::UniswapV4,
            state: StateKind::UniswapV4,
            filter: PoolFilter::UniswapV4Hooks,
        },
    ]
}

/// The exchanges that only Ethereum has and that need no virtual machine.
pub open spec fn ethereum_exchanges() -> Seq<Exchange> {
    seq![
        Exchange {
            protocol: Protocol::EkuboV2,
            state: StateKind::Ekubo,
            filter: PoolFilter::Everything,
        },
        Exchange {
            protocol: Protocol::SushiswapV2,
            state: StateKind::UniswapV2,
            filter: PoolFilter::Everything,
        },
        Exchange {
            protocol: Protocol::PancakeswapV2,
            state: StateKind::UniswapV2,
            filter: PoolFilter::Everything,
        },
        Exchange {
            protocol: Protocol::PancakeswapV3,
            state: StateKind::UniswapV3,
            filter: PoolFilter::Everything,
        },
    ]
}

/// The exchanges of Ethereum whose states are simulated on a virtual machine.
pub open spec fn vm_exchanges() -> Seq<Exchange> {
    seq![
        Exchange {
            protocol: Protocol::VmBalancerV2,
            state: StateKind::Vm,
            filter: PoolFilter::BalancerV2,
        },
        Exchange { protocol: Protocol::VmCurve, state: StateKind::Vm, filter: PoolFilter::Curve },
    ]
}

/// The exchanges to follow on the chain `chain_id`, in the order in which
/// they are registered. The simulated ones are followed only where there is a
/// node to simulate against (`with_vm`). Other chains than Ethereum, Base and
/// Unichain have none.
pub open spec fn chain_exchanges(chain_id: u64, with_vm: bool) -> Seq<Exchange> {
    if chain_id == ETHEREUM {
        if with_vm {
            uniswap_exchanges() + ethereum_exchanges() + vm_exchanges()
        } else {
            uniswap_exchanges() + ethereum_exchanges()
        }
    } else if chain_id == BASE || chain_id == UNICHAIN {
        uniswap_exchanges()
    } else {
        Seq::empty()
    }
}

/// The exchanges to follow on the chain `chain_id`. The simulated ones are
/// among them only where `rpc_url` is not empty.
pub fn exchanges_for_chain(chain_id: u64, rpc_url: &str) -> (r: Vec<Exchange>)
    ensures
        r@ == chain_exchanges(chain_id, rpc_url@.len() > 0),
{
    let mut r: Vec<Exchange> = Vec::new();
    if chain_id == ETHEREUM || chain_id == BASE || chain_id == UNICHAIN {
        r.push(
            Exchange {
                protocol: Protocol::UniswapV2,
                state: StateKind::UniswapV2,
                filter: PoolFilter::Everything,
            },
        );
        r.push(
            Exchange {
                protocol: Protocol::UniswapV3,
                state: StateKind::UniswapV3,
                filter: PoolFilter::Everything,
            },
        );
        r.push(
            Exchange {
                protocol: Protocol::UniswapV4,
                state: StateKind::UniswapV4,
                filter: PoolFilter::UniswapV4Hooks,
            },
        );
    }
    if chain_id == ETHEREUM {
        r.push(
            Exchange {
                protocol: Protocol::EkuboV2,
                state: StateKind::Ekubo,
                filter: PoolFilter::Everything,
            },
        );
        r.push(
            Exchange {
                protocol: Protocol::SushiswapV2,
                state: StateKind::UniswapV2,
                filter: PoolFilter::Everything,
            },
        );
        r.push(
            Exchange {
                protocol: Protocol::PancakeswapV2,
                state: StateKind::UniswapV2,
                filter: PoolFilter::Everything,
            },
        );
        r.push(
            Exchange {
                protocol: Protocol::PancakeswapV3,
                state: StateKind::UniswapV3,
                filter: PoolFilter::Everything,
            },
        );
        if !rpc_url.is_empty() {
            r.push(
                Exchange {
                    protocol: Protocol::VmBalancerV2,
                    state: StateKind::Vm,
                    filter: PoolFilter::BalancerV2,
                },
            );
            r.push(
                Exchange {
                    protocol: Protocol::VmCurve,
                    state: StateKind::Vm,
                    filter: PoolFilter::Curve,
                },
            );
        }
    }
    proof {
        assert(r@ =~= chain_exchanges(chain_id, rpc_url@.len() > 0));
    }
    r
}

} // verus!
