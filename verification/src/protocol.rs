//! The closed set of pool protocols and their wire names.

use vstd::prelude::*;
use crate::text::text_eq;

verus! {

/// A kind of pool implementation.
#[derive(Debug, PartialEq, Eq, Hash, Clone, Copy, Structural)]
pub enum Protocol {
    UniswapV2,
    UniswapV3,
    UniswapV4,
    VmBalancerV2,
    VmCurve,
    SushiswapV2,
    PancakeswapV2,
    PancakeswapV3,
    EkuboV2,
}

/// The name under which a protocol is announced.
pub open spec fn protocol_name(p: Protocol) -> Seq<char> {
    match p {
        Protocol::UniswapV2 => "uniswap_v2"@,
        Protocol::UniswapV3 => "uniswap_v3"@,
        Protocol::UniswapV4 => "uniswap_v4"@,
        Protocol::VmBalancerV2 => "vm:balancer_v2"@,
        Protocol::VmCurve => "vm:curve"@,
        Protocol::SushiswapV2 => "sushiswap_v2"@,
        Protocol::PancakeswapV2 => "pancakeswap_v2"@,
        Protocol::PancakeswapV3 => "pancakeswap_v3"@,
        Protocol::EkuboV2 => "ekubo_v2"@,
    }
}

/// The protocol that `name` announces, if it announces one.
pub open spec fn protocol_named(name: Seq<char>) -> Option<Protocol> {
    if exists|p: Protocol| protocol_name(p) == name {
        Some(choose|p: Protocol| protocol_name(p) == name)
    } else {
        None
    }
}

/// No two protocols share a name.
pub proof fn lemma_protocol_names_distinct(p: Protocol, q: Protocol)
    requires
        protocol_name(p) == protocol_name(q),
    ensures
        p == q,
{
    reveal_strlit("uniswap_v2");
    reveal_strlit("uniswap_v3");
    reveal_strlit("uniswap_v4");
    reveal_strlit("vm:balancer_v2");
    reveal_strlit("vm:curve");
    reveal_strlit("sushiswap_v2");
    reveal_strlit("pancakeswap_v2");
    reveal_strlit("pancakeswap_v3");
    reveal_strlit("ekubo_v2");
    let a = protocol_name(p);
    let b = protocol_name(q);
    assert(a.len() == b.len());
    assert(a[0] == b[0]);
    assert(a[a.len() - 1] == b[b.len() - 1]);
}

/// Parsing the name of a protocol gives that protocol back.
pub proof fn lemma_protocol_round_trip(p: Protocol)
    ensures
        protocol_named(protocol_name(p)) == Some(p),
{
    let q = choose|q: Protocol| protocol_name(q) == protocol_name(p);
    lemma_protocol_names_distinct(q, p);
}

/// A name that parses is the name of what it parses to.
pub proof fn lemma_protocol_named_is_name(name: Seq<char>)
    ensures
        match protocol_named(name) {
            Some(p) => protocol_name(p) == name,
            None => forall|p: Protocol| protocol_name(p) != name,
        },
{
}

impl Protocol {
    /// Reads a protocol from its name; `None` for any other text.
    pub fn from_str(s: &str) -> (r: Option<Self>)
        ensures
            r == protocol_named(s@),
    {
        let r = if text_eq(s, "uniswap_v2") {
            Some(Protocol::UniswapV2)
        } else if text_eq(s, "uniswap_v3") {
            Some(Protocol::UniswapV3)
        } else if text_eq(s, "uniswap_v4") {
            Some(Protocol::UniswapV4)
        } else if text_eq(s, "vm:balancer_v2") {
            Some(Protocol::VmBalancerV2)
        } else if text_eq(s, "vm:curve") {
            Some(Protocol::VmCurve)
        } else if text_eq(s, "sushiswap_v2") {
            Some(Protocol::SushiswapV2)
        } else if text_eq(s, "pancakeswap_v2") {
            Some(Protocol::PancakeswapV2)
        } else if text_eq(s, "pancakeswap_v3") {
            Some(Protocol::PancakeswapV3)
        } else if text_eq(s, "ekubo_v2") {
            Some(Protocol::EkuboV2)
        } else {
            None
        };
        proof {
            match r {
                Some(p) => {
                    assert(protocol_name(p) == s@);
                    lemma_protocol_round_trip(p);
                },
                None => {
                    assert forall|p: Protocol| protocol_name(p) != s@ by {
                        match p {
                            Protocol::UniswapV2 => {},
                            Protocol::UniswapV3 => {},
                            Protocol::UniswapV4 => {},
                            Protocol::VmBalancerV2 => {},
                            Protocol::VmCurve => {},
                            Protocol::SushiswapV2 => {},
                            Protocol::PancakeswapV2 => {},
                            Protocol::PancakeswapV3 => {},
                            Protocol::EkuboV2 => {},
                        }
                    }
                },
            }
        }
        r
    }

    /// The name of the protocol.
    pub fn to_str(&self) -> (r: &'static str)
        ensures
            r@ == protocol_name(*self),
    {
        match self {
            Protocol::UniswapV2 => "uniswap_v2",
            Protocol::UniswapV3 => "uniswap_v3",
            Protocol::UniswapV4 => "uniswap_v4",
            Protocol::VmBalancerV2 => "vm:balancer_v2",
            Protocol::VmCurve => "vm:curve",
            Protocol::SushiswapV2 => "sushiswap_v2",
            Protocol::PancakeswapV2 => "pancakeswap_v2",
            Protocol::PancakeswapV3 => "pancakeswap_v3",
            Protocol::EkuboV2 => "ekubo_v2",
        }
    }
}

} // verus!
