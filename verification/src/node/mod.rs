pub mod block_codec;
pub mod engine_api;
pub mod evm;
pub mod miner;
pub mod network;
pub mod primitives;
