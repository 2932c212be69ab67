//! The `flashsimv2_` namespace. Flashblocks state does not exist on this chain, so every method is
//! refused; a filter that could never match is refused for that reason first.
use crate::node::primitives::{Address, B256};
use crate::rpc::error_object::{ErrorObject, ErrorView};
use crate::rpc::simulate_transaction_at::SimulateTransactionAtResult;
use vstd::prelude::*;
use vstd::string::*;

verus! {

/// The code of the error that says that the state is not there.
pub const ERR_NOT_READY: i32 = -39_102;

/// The code of the error that says that a filter is no filter.
pub const ERR_BAD_FILTER: i32 = -39_105;

/// Which logs a subscription is for.
#[derive(Clone, Debug, PartialEq, Eq)]
pub struct FilteredLogsParamsV1 {
    pub topic0s: Vec<B256>,
    pub addresses: Option<Vec<Address>>,
}

/// What a simulation on a flashblock answers with.
#[derive(Debug, PartialEq, Eq)]
pub struct FlashSimV2SimulateResponse {
    pub payload_id: [u8; 8],
    pub index: u64,
    pub block_number: u64,
    pub generation: u64,
    pub duration_ms: u64,
    pub results: Vec<SimulateTransactionAtResult>,
}

/// The methods of the namespace.
#[derive(Debug, Clone)]
pub struct FlashSimV2ApiImpl;

/// The error that says that the state is not there.
pub open spec fn not_ready_error() -> ErrorView {
    ErrorView { code: ERR_NOT_READY, message: "flashblocks state is not available on BSC"@ }
}

/// The error that says that a filter is no filter.
pub open spec fn bad_filter_error() -> ErrorView {
    ErrorView { code: ERR_BAD_FILTER, message: "topic0s must be non-empty"@ }
}

/// The error that says that the state is not there.
pub fn not_ready() -> (r: ErrorObject)
    ensures
        r@ == not_ready_error(),
{
    ErrorObject::owned(
        ERR_NOT_READY,
        String::from_str("flashblocks state is not available on BSC"),
    )
}

/// The error that says that a filter is no filter.
pub fn bad_filter() -> (r: ErrorObject)
    ensures
        r@ == bad_filter_error(),
{
    ErrorObject::owned(ERR_BAD_FILTER, String::from_str("topic0s must be non-empty"))
}

impl Default for FlashSimV2ApiImpl {
    fn default() -> (r: Self)
        ensures
            r == FlashSimV2ApiImpl,
    {
        FlashSimV2ApiImpl
    }
}

impl FlashSimV2ApiImpl {
    pub fn new() -> (r: Self)
        ensures
            r == FlashSimV2ApiImpl,
    {
        FlashSimV2ApiImpl
    }

    /// `simulateV1`
    pub fn simulate_v1(
        &self,
        payload_id: [u8; 8],
        index: u64,
        block_number: u64,
        sims: Vec<Vec<u8>>,
    ) -> (r: Result<FlashSimV2SimulateResponse, ErrorObject>)
        ensures
            r matches Err(e) && e@ == not_ready_error(),
            r matches Err(e) && e.code == -39102 && e.message@
                == "flashblocks state is not available on BSC"@,
    {
        Err(not_ready())
    }

    /// `subscribeFilteredLogsV1`
    pub fn subscribe_filtered_logs_v1(&self, params: FilteredLogsParamsV1) -> (r: Result<
        String,
        ErrorObject,
    >)
        ensures
            r matches Err(e) && e@ == (if params.topic0s@.len() == 0 {
                bad_filter_error()
            } else {
                not_ready_error()
            }),
            r matches Err(e) && {
                &&& params.topic0s@.len() == 0 ==> e.code == -39105 && e.message@
                    == "topic0s must be non-empty"@
                &&& params.topic0s@.len() > 0 ==> e.code == -39102 && e.message@
                    == "flashblocks state is not available on BSC"@
            },
    {
        if params.topic0s.len() == 0 {
            return Err(bad_filter());
        }
        Err(not_ready())
    }

    /// `unsubscribeFilteredLogsV1`
    pub fn unsubscribe_filtered_logs_v1(&self, subscription_id: String) -> (r: Result<
        bool,
        ErrorObject,
    >)
        ensures
            r matches Err(e) && e@ == not_ready_error(),
            r matches Err(e) && e.code == -39102 && e.message@
                == "flashblocks state is not available on BSC"@,
    {
        Err(not_ready())
    }

    /// `subscribeTxInclusionsV1`
    pub fn subscribe_tx_inclusions_v1(&self) -> (r: Result<String, ErrorObject>)
        ensures
            r matches Err(e) && e@ == not_ready_error(),
            r matches Err(e) && e.code == -39102 && e.message@
                == "flashblocks state is not available on BSC"@,
    {
        Err(not_ready())
    }

    /// `unsubscribeTxInclusionsV1`
    pub fn unsubscribe_tx_inclusions_v1(&self, subscription_id: String) -> (r: Result<
        bool,
        ErrorObject,
    >)
        ensures
            r matches Err(e) && e@ == not_ready_error(),
            r matches Err(e) && e.code == -39102 && e.message@
                == "flashblocks state is not available on BSC"@,
    {
        Err(not_ready())
    }
}

/// The two refusals have the codes and the words that clients know them by.
pub proof fn law_refusals()
    ensures
        not_ready_error().code == -39102,
        not_ready_error().message == "flashblocks state is not available on BSC"@,
        bad_filter_error().code == -39105,
        bad_filter_error().message == "topic0s must be non-empty"@,
{
}

} // verus!
