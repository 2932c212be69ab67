pub mod blocks_by_range;
pub mod bsc_protocol;
pub mod evn;
pub mod range_walk;
pub mod votes;
