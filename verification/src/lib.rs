//! The parts of a BSC node that carry its rules: the block range protocol, the registry of peers, the
//! cache of full blocks, what the node's parts share, and the simulation endpoints.
pub mod body_cache;
pub mod chainspec;
pub mod lru;
pub mod node;
pub mod num;
pub mod once_slot;
pub mod rlp;
pub mod rpc;
pub mod shared;
pub mod text;

pub use node::primitives::{BscBlock, BscBlockBody};
