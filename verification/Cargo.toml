[package]
name = "bsc_node"
version = "0.1.0"
edition = "2021"
publish = false

[dependencies]
alloy-consensus = { version = "=1.8.3", features = ["k256"] }
alloy-eips = "=1.8.3"
alloy-primitives = { version = "1.5", features = ["rlp", "serde"] }
alloy-rlp = "=0.3.17"
alloy-rpc-types = { version = "=1.8.3", features = ["eth"] }
alloy-rpc-types-engine = "=1.8.3"
bytes = "1"
eyre = "0.6"
jsonrpsee = { version = "0.26", features = ["server", "client-core", "async-client", "macros"] }
jsonrpsee-types = "0.26"
once_cell = "1"
parking_lot = "0.12"
schnellru = "=0.2.4"
serde = { version = "1", features = ["derive"] }
serde_json = "1"
tokio = { version = "1", features = ["rt", "rt-multi-thread", "sync", "time", "macros"] }
tracing = "0.1"
