pub mod error_object;
pub mod flashsimv2;
pub mod keepers;
pub mod simulate_transaction_at;
pub mod simulation;
pub mod transaction_request;
pub mod tx_input;

pub use simulation::{
    normalize_error_message, SimulateTransactionAtResult, SimulateTransactionAtStatus,
};
pub use transaction_request::{decode_candidate_transaction, TransactionRequest};
pub use tx_input::SimulationTxInput;
