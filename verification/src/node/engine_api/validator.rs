//! The engine's view of a block, and the validator of what the engine is handed.
use crate::chainspec::BscChainSpec;
use crate::node::primitives;
use crate::node::primitives::{Address, BscBlock, B256};
use std::sync::Arc;
use vstd::prelude::*;

verus! {

/// Validates what the engine is handed, for one chain.
#[derive(Debug, Clone)]
pub struct BscEngineValidator {
    chain_spec: Arc<BscChainSpec>,
}

impl BscEngineValidator {
    /// The chain that it validates for.
    pub closed spec fn spec(&self) -> Arc<BscChainSpec> {
        self.chain_spec
    }

    pub fn new(chain_spec: Arc<BscChainSpec>) -> (r: Self)
        ensures
            r.spec() == chain_spec,
    {
        BscEngineValidator { chain_spec }
    }
}

/// A withdrawal from the beacon chain.
#[derive(Debug, Clone, Copy, PartialEq, Eq)]
pub struct Withdrawal {
    pub index: u64,
    pub validator_index: u64,
    pub address: Address,
    pub amount: u64,
}

/// A block as the engine is handed it.
#[derive(Debug, PartialEq, Eq)]
pub struct BscExecutionData(pub BscBlock);

impl Clone for BscExecutionData {
    fn clone(&self) -> (r: Self)
        ensures
            r.0@ == self.0@,
    {
        BscExecutionData(self.0.clone())
    }
}

impl BscExecutionData {
    /// The hash of the block's parent.
    pub fn parent_hash(&self) -> (r: B256)
        ensures
            r@ == self.0@.header.parent_hash,
    {
        self.0.header.parent_hash
    }

    /// The hash of the block.
    pub fn block_hash(&self) -> (r: B256)
        ensures
            r@ == primitives::header_hash(self.0@.header),
    {
        self.0.header.hash_slow()
    }

    /// The number of the block.
    pub fn block_number(&self) -> (r: u64)
        ensures
            r == self.0@.header.number,
    {
        self.0.header.number
    }

    /// The time of the block.
    pub fn timestamp(&self) -> (r: u64)
        ensures
            r == self.0@.header.timestamp,
    {
        self.0.header.timestamp
    }

    /// The gas that the block's transactions used.
    pub fn gas_used(&self) -> (r: u64)
        ensures
            r == self.0@.header.gas_used,
    {
        self.0.header.gas_used
    }

    /// The withdrawals in the block: this chain has none.
    pub fn withdrawals(&self) -> (r: Option<&Vec<Withdrawal>>)
        ensures
            r is None,
    {
        None
    }

    /// The root of the parent's beacon block: this chain has none.
    pub fn parent_beacon_block_root(&self) -> (r: Option<B256>)
        ensures
            r is None,
    {
        None
    }
}

} // verus!
