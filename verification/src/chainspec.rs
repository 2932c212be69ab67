//! The chain that a node is on.
use vstd::prelude::*;

verus! {

/// A chain, by its id.
#[derive(Debug, Clone, Copy, PartialEq, Eq)]
pub struct ChainSpec {
    pub chain_id: u64,
}

/// The chain specification of a node.
#[derive(Debug, Clone, Copy, PartialEq, Eq)]
pub struct BscChainSpec {
    pub inner: ChainSpec,
}

/// The main network.
pub fn bsc_mainnet() -> (r: ChainSpec)
    ensures
        r.chain_id == 56,
{
    ChainSpec { chain_id: 56 }
}

impl From<ChainSpec> for BscChainSpec {
    fn from(inner: ChainSpec) -> (r: Self) {
        BscChainSpec { inner }
    }
}

impl vstd::std_specs::convert::FromSpecImpl<ChainSpec> for BscChainSpec {
    open spec fn obeys_from_spec() -> bool {
        true
    }

    open spec fn from_spec(inner: ChainSpec) -> BscChainSpec {
        BscChainSpec { inner }
    }
}

} // verus!
