use bsc_node::chainspec::{bsc_mainnet, BscChainSpec};
use bsc_node::node::engine_api::validator::{BscEngineValidator, BscExecutionData};
use bsc_node::node::primitives::{BscBlock, BscBlockBody, Header};
use bsc_node::num::U256;
use std::collections::hash_map::RandomState;
use std::hash::{BuildHasher, Hasher};
use std::sync::Arc;

fn random<const N: usize>() -> [u8; N] {
    let mut bytes = [0u8; N];
    for b in &mut bytes {
        *b = RandomState::new().build_hasher().finish() as u8;
    }
    bytes
}

fn create_test_block(number: u64, parent_hash: [u8; 32]) -> BscBlock {
    let header = Header {
        number,
        parent_hash,
        timestamp: 1234567890 + number * 3,
        gas_limit: 30_000_000,
        gas_used: 0,
        beneficiary: random(),
        difficulty: U256::from_u64(2),
        ..Default::default()
    };
    BscBlock { header, body: BscBlockBody::default() }
}

#[test]
fn test_bsc_engine_validator_creation() {
    let chain_spec = Arc::new(BscChainSpec::from(bsc_mainnet()));
    let validator = BscEngineValidator::new(chain_spec);
    assert!(std::mem::size_of_val(&validator) > 0);
}

#[test]
fn test_execution_data_parent_hash() {
    let parent_hash: [u8; 32] = random();
    let execution_data = BscExecutionData(create_test_block(1, parent_hash));
    assert_eq!(execution_data.parent_hash(), parent_hash);
}

#[test]
fn test_execution_data_block_hash() {
    let parent_hash: [u8; 32] = random();
    let block = create_test_block(1, parent_hash);
    let expected_hash = block.header.hash_slow();
    let execution_data = BscExecutionData(block);
    assert_eq!(execution_data.block_hash(), expected_hash);
}

#[test]
fn test_execution_data_block_number() {
    let block_number = 12345;
    let block = create_test_block(block_number, random());
    let execution_data = BscExecutionData(block);
    assert_eq!(execution_data.block_number(), block_number);
}

#[test]
fn test_execution_data_timestamp() {
    let block = create_test_block(1, random());
    let expected_timestamp = block.header.timestamp;
    let execution_data = BscExecutionData(block);
    assert_eq!(execution_data.timestamp(), expected_timestamp);
}

#[test]
fn test_execution_data_gas_used() {
    let mut block = create_test_block(1, random());
    block.header.gas_used = 1_000_000;
    let execution_data = BscExecutionData(block);
    assert_eq!(execution_data.gas_used(), 1_000_000);
}

#[test]
fn test_execution_data_withdrawals_none() {
    let execution_data = BscExecutionData(create_test_block(1, random()));
    assert!(execution_data.withdrawals().is_none());
}

#[test]
fn test_execution_data_parent_beacon_block_root_none() {
    let execution_data = BscExecutionData(create_test_block(1, random()));
    assert!(execution_data.parent_beacon_block_root().is_none());
}

#[test]
fn test_engine_validator_debug_format() {
    let chain_spec = Arc::new(BscChainSpec::from(bsc_mainnet()));
    let validator = BscEngineValidator::new(chain_spec);
    let debug_str = format!("{:?}", validator);
    assert!(!debug_str.is_empty());
}

#[test]
fn test_engine_validator_clone() {
    let chain_spec = Arc::new(BscChainSpec::from(bsc_mainnet()));
    let validator = BscEngineValidator::new(chain_spec);
    let cloned_validator = validator.clone();
    assert!(std::mem::size_of_val(&validator) > 0);
    assert!(std::mem::size_of_val(&cloned_validator) > 0);
}

#[test]
fn test_execution_data_with_zero_gas() {
    let mut block = create_test_block(1, random());
    block.header.gas_used = 0;
    let execution_data = BscExecutionData(block);
    assert_eq!(execution_data.gas_used(), 0);
}

#[test]
fn test_execution_data_with_max_gas() {
    let mut block = create_test_block(1, random());
    let gas_limit = block.header.gas_limit;
    block.header.gas_used = gas_limit;
    let execution_data = BscExecutionData(block);
    assert_eq!(execution_data.gas_used(), gas_limit);
}

#[test]
fn test_execution_data_with_different_difficulties() {
    let difficulties = vec![U256::from_u64(1), U256::from_u64(2)];
    for difficulty in difficulties {
        let mut block = create_test_block(1, random());
        block.header.difficulty = difficulty;
        let execution_data = BscExecutionData(block);
        assert_eq!(execution_data.block_number(), 1);
    }
}

#[test]
fn test_execution_data_with_different_timestamps() {
    let timestamps = vec![1234567890u64, 1640000000u64, 1700000000u64, 1740000000u64];
    for timestamp in timestamps {
        let mut block = create_test_block(1, random());
        block.header.timestamp = timestamp;
        let execution_data = BscExecutionData(block);
        assert_eq!(execution_data.timestamp(), timestamp);
    }
}

#[test]
fn cloned_execution_data_is_the_same() {
    let execution_data = BscExecutionData(create_test_block(3, [9; 32]));
    assert_eq!(execution_data.clone(), execution_data);
}

#[test]
fn mainnet_has_its_chain_id() {
    assert_eq!(BscChainSpec::from(bsc_mainnet()).inner.chain_id, 56);
}
