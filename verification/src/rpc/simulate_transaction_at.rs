//! `eth_simulateTransactionAt`: a candidate transaction, executed as if it stood at a given place in
//! a block.
//!
//! The node does the looking up and the executing. What it is asked next is an [`AtStep`]; each step
//! but the last has a `resume` that takes the node's reply and gives the step that follows.
use crate::num::U256;
use crate::rpc::error_object::{ErrorObject, ErrorView, INVALID_PARAMS_CODE};
use crate::rpc::simulation;
use crate::rpc::simulation::{
    executed, halted, normalize_error_message, BlockId, BlockInfo, BlockNumberOrTag, EnvOverrides,
    ExecutionResult, Log, LogEntry, Position, ResultView, SimulationError,
};
use crate::node::primitives::B256;
use crate::rpc::transaction_request;
use crate::rpc::transaction_request::{
    decode_candidate_transaction, RequestView, TransactionRequest,
};
use crate::rpc::tx_input::SimulationTxInput;
use crate::text;
use crate::text::push_decimal;
use vstd::prelude::*;
use vstd::string::*;

pub use crate::rpc::simulation::{SimulateTransactionAtResult, SimulateTransactionAtStatus};

verus! {

// ---- results of a simulated call ----

/// The error of a simulated call.
#[derive(Debug, PartialEq, Eq)]
pub struct SimulateError {
    pub code: i32,
    pub message: String,
}

/// The result of a simulated call.
#[derive(Debug, PartialEq, Eq)]
pub struct SimCallResult {
    pub return_data: Vec<u8>,
    pub logs: Vec<Log>,
    pub gas_used: u64,
    pub status: bool,
    pub error: Option<SimulateError>,
}

/// How a simulated call ended: an error with the code of a revert is one, any other failure a halt.
pub open spec fn call_status(call: SimCallResult) -> SimulateTransactionAtStatus {
    if call.status {
        SimulateTransactionAtStatus::Success
    } else {
        match call.error {
            Some(err) => if err.code == 3 {
                SimulateTransactionAtStatus::Revert
            } else {
                SimulateTransactionAtStatus::Halt
            },
            None => SimulateTransactionAtStatus::Halt,
        }
    }
}

/// The result of a simulated call in the form that the endpoint answers with.
pub fn convert_sim_call_result(call: SimCallResult) -> (r: SimulateTransactionAtResult)
    ensures
        r@ == (ResultView {
            status: call_status(call),
            gas_used: call.gas_used as nat,
            logs: call.logs@,
            return_data: call.return_data@,
            error: match call.error {
                Some(err) => Some(simulation::normalized(call_status(call), err.message@)),
                None => None,
            },
        }),
{
    let status = if call.status {
        SimulateTransactionAtStatus::Success
    } else {
        match &call.error {
            Some(err) => if err.code == 3 {
                SimulateTransactionAtStatus::Revert
            } else {
                SimulateTransactionAtStatus::Halt
            },
            None => SimulateTransactionAtStatus::Halt,
        }
    };
    let error = match call.error {
        Some(err) => Some(normalize_error_message(status, err.message)),
        None => None,
    };
    SimulateTransactionAtResult {
        status,
        gas_used: U256::from_u64(call.gas_used),
        logs: call.logs,
        return_data: call.return_data,
        error,
    }
}

// ---- the steps ----

/// What was asked for. `call_gas_limit` is the node's own limit for a call, zero for none.
#[derive(Debug, PartialEq)]
pub struct AtPlan {
    pub block_id: BlockId,
    pub transaction_index: u64,
    pub transaction: SimulationTxInput<TransactionRequest>,
    pub call_gas_limit: u64,
}

/// Ask for the hash of the block.
#[derive(Debug, PartialEq)]
pub struct FindHash {
    pub plan: AtPlan,
}

/// Ask for the execution environment of `target`.
#[derive(Debug, PartialEq)]
pub struct PrepareEnv {
    pub plan: AtPlan,
    pub target: BlockId,
}

/// Ask for the block `target` itself.
#[derive(Debug, PartialEq)]
pub struct FetchBlock {
    pub plan: AtPlan,
    pub target: BlockId,
}

/// Ask for the state behind the block with hash `parent`, for the environment to be changed, and for
/// what precedes the first transaction of the block.
#[derive(Debug, PartialEq)]
pub struct OpenState {
    pub parent: B256,
    pub overrides: EnvOverrides,
    pub run: AtRun,
}

/// What is known once the block is there.
#[derive(Debug, PartialEq)]
pub struct AtRun {
    pub block: BlockInfo,
    pub transaction_index: u64,
    pub call_gas_limit: u64,
    pub request: TransactionRequest,
}

/// Ask for transaction number `next` of the block to be executed.
#[derive(Debug, PartialEq)]
pub struct Replay {
    pub next: u64,
    pub gas_used_so_far: u64,
    pub run: AtRun,
}

/// Ask for the request to be made a transaction, with this gas limit if it names none.
#[derive(Debug, PartialEq)]
pub struct Resolve {
    pub request: TransactionRequest,
    pub default_gas_limit: u64,
    pub block: BlockInfo,
    pub transaction_index: u64,
}

/// Ask for the transaction to be executed.
#[derive(Debug, PartialEq)]
pub struct Execute {
    pub at: Position,
}

/// What the node is asked next, or the end.
#[derive(Debug, PartialEq)]
pub enum AtStep<E> {
    FindHash(FindHash),
    PrepareEnv(PrepareEnv),
    FetchBlock(FetchBlock),
    OpenState(OpenState),
    Replay(Replay),
    Resolve(Resolve),
    Execute(Execute),
    Finished(Result<SimulateTransactionAtResult, SimulationError<E>>),
}

/// A refusal of the parameters.
pub open spec fn refused<E>(t: AtStep<E>, e: ErrorView) -> bool {
    t matches AtStep::Finished(Err(SimulationError::Rejected(o))) && o@ == e
}

/// An end with this result.
pub open spec fn answered<E>(t: AtStep<E>, v: ResultView) -> bool {
    t matches AtStep::Finished(Ok(r)) && r@ == v
}

/// The message about an index behind the end of the block.
pub open spec fn index_message(index: u64, count: u64) -> Seq<char> {
    "transactionIndex "@ + text::decimal(index as nat) + " exceeds block transaction count "@
        + text::decimal(count as nat)
}

fn index_error(index: u64, count: u64) -> (r: ErrorObject)
    ensures
        r@ == (ErrorView { code: INVALID_PARAMS_CODE, message: index_message(index, count) }),
{
    let mut message = String::from_str("transactionIndex ");
    push_decimal(&mut message, index);
    message.append(" exceeds block transaction count ");
    push_decimal(&mut message, count);
    ErrorObject::owned(INVALID_PARAMS_CODE, message)
}

/// How the environment is changed: the candidate may use any amount of gas.
pub open spec fn at_overrides() -> EnvOverrides {
    EnvOverrides {
        disable_eip3607: false,
        disable_nonce_check: false,
        disable_base_fee: false,
        disable_block_gas_limit: true,
        gas_limit: u64::MAX,
    }
}

/// The gas that is left in a block, nothing if more was used than there is.
pub open spec fn gas_left(limit: u64, used: u64) -> u64 {
    if used <= limit {
        (limit - used) as u64
    } else {
        0
    }
}

/// The gas limit of a candidate that names none: what is left in the block, within the node's own
/// limit if it has one.
pub open spec fn candidate_gas_limit(left: u64, call_gas_limit: u64) -> u64 {
    if call_gas_limit > 0 && call_gas_limit < left {
        call_gas_limit
    } else {
        left
    }
}

/// What follows once `replayed` of the block's transactions were executed and used this much gas.
pub open spec fn replay_or_resolve<E>(run: AtRun, replayed: u64, gas: u64) -> AtStep<E> {
    if replayed < run.transaction_index {
        AtStep::Replay(Replay { next: replayed, gas_used_so_far: gas, run })
    } else {
        AtStep::Resolve(
            Resolve {
                request: run.request,
                default_gas_limit: candidate_gas_limit(
                    gas_left(run.block.gas_limit, gas),
                    run.call_gas_limit,
                ),
                block: run.block,
                transaction_index: run.transaction_index,
            },
        )
    }
}

fn go_on<E>(run: AtRun, replayed: u64, gas: u64) -> (t: AtStep<E>)
    ensures
        t == replay_or_resolve::<E>(run, replayed, gas),
{
    if replayed < run.transaction_index {
        AtStep::Replay(Replay { next: replayed, gas_used_so_far: gas, run })
    } else {
        let left = run.block.gas_limit.saturating_sub(gas);
        let default_gas_limit = if run.call_gas_limit > 0 && run.call_gas_limit < left {
            run.call_gas_limit
        } else {
            left
        };
        AtStep::Resolve(
            Resolve {
                request: run.request,
                default_gas_limit,
                block: run.block,
                transaction_index: run.transaction_index,
            },
        )
    }
}

/// The first step: a pending block has no hash yet and is taken as it is.
pub open spec fn first_step<E>(plan: AtPlan) -> AtStep<E> {
    if plan.block_id == BlockId::Number(BlockNumberOrTag::Pending) {
        AtStep::PrepareEnv(PrepareEnv { plan, target: plan.block_id })
    } else {
        AtStep::FindHash(FindHash { plan })
    }
}

/// The endpoint, in front of a node's API.
#[derive(Debug, Clone)]
pub struct EthSimulateTransactionAtApiImpl<Eth> {
    eth_api: Eth,
}

impl<Eth> EthSimulateTransactionAtApiImpl<Eth> {
    /// The node's API.
    pub closed spec fn api(&self) -> Eth {
        self.eth_api
    }

    pub fn new(eth_api: Eth) -> (r: Self)
        ensures
            r.api() == eth_api,
    {
        Self { eth_api }
    }

    /// The node's API.
    pub fn eth_api(&self) -> (r: &Eth)
        ensures
            *r == self.api(),
    {
        &self.eth_api
    }

    /// Starts a simulation.
    pub fn simulate_transaction_at<E>(
        &self,
        block_id: BlockId,
        transaction_index: u64,
        transaction: SimulationTxInput<TransactionRequest>,
        call_gas_limit: u64,
    ) -> (t: AtStep<E>)
        ensures
            t == first_step::<E>(
                AtPlan { block_id, transaction_index, transaction, call_gas_limit },
            ),
    {
        let plan = AtPlan { block_id, transaction_index, transaction, call_gas_limit };
        if block_id.is_pending() {
            AtStep::PrepareEnv(PrepareEnv { plan, target: block_id })
        } else {
            AtStep::FindHash(FindHash { plan })
        }
    }
}

impl FindHash {
    /// The step that this one leads to.
    pub open spec fn leads_to<E>(self, found: Result<Option<B256>, E>, t: AtStep<E>) -> bool {
        match found {
            Ok(Some(hash)) => t == AtStep::<E>::PrepareEnv(
                PrepareEnv { plan: self.plan, target: BlockId::of_hash(hash) },
            ),
            _ => t == AtStep::<E>::Finished(
                Err(SimulationError::HeaderNotFound(self.plan.block_id)),
            ),
        }
    }

    /// Goes on with the hash. A block that cannot be looked up is as good as none.
    pub fn resume<E>(self, found: Result<Option<B256>, E>) -> (t: AtStep<E>)
        ensures
            self.leads_to(found, t),
    {
        match found {
            Ok(Some(hash)) => AtStep::PrepareEnv(
                PrepareEnv { plan: self.plan, target: BlockId::from_hash(hash) },
            ),
            _ => AtStep::Finished(Err(SimulationError::HeaderNotFound(self.plan.block_id))),
        }
    }
}

impl PrepareEnv {
    /// The step that this one leads to.
    pub open spec fn leads_to<E>(self, ready: Result<(), E>, t: AtStep<E>) -> bool {
        match ready {
            Ok(()) => t == AtStep::<E>::FetchBlock(
                FetchBlock { plan: self.plan, target: self.target },
            ),
            Err(e) => t == AtStep::<E>::Finished(Err(SimulationError::Node(e))),
        }
    }

    /// Goes on once the environment is there.
    pub fn resume<E>(self, ready: Result<(), E>) -> (t: AtStep<E>)
        ensures
            self.leads_to(ready, t),
    {
        match ready {
            Ok(()) => AtStep::FetchBlock(FetchBlock { plan: self.plan, target: self.target }),
            Err(e) => AtStep::Finished(Err(SimulationError::Node(e))),
        }
    }
}

impl FetchBlock {
    /// The step that this one leads to: the index has to lie within the block or right behind its
    /// end, and the candidate has to be one.
    pub open spec fn leads_to<E>(self, found: Result<Option<BlockInfo>, E>, t: AtStep<E>) -> bool {
        match found {
            Err(e) => t == AtStep::<E>::Finished(Err(SimulationError::Node(e))),
            Ok(None) => t == AtStep::<E>::Finished(
                Err(SimulationError::HeaderNotFound(self.plan.block_id)),
            ),
            Ok(Some(block)) => if self.plan.transaction_index > block.tx_count {
                refused(
                    t,
                    ErrorView {
                        code: INVALID_PARAMS_CODE,
                        message: index_message(self.plan.transaction_index, block.tx_count),
                    },
                )
            } else {
                match transaction_request::candidate(self.plan.transaction) {
                    Err(e) => refused(t, e),
                    Ok(v) => t matches AtStep::OpenState(s) && {
                        &&& s.parent == block.parent_hash
                        &&& s.overrides == at_overrides()
                        &&& s.run.block == block
                        &&& s.run.transaction_index == self.plan.transaction_index
                        &&& s.run.call_gas_limit == self.plan.call_gas_limit
                        &&& s.run.request@ == v
                    },
                }
            },
        }
    }

    /// Goes on with the block.
    pub fn resume<E>(self, found: Result<Option<BlockInfo>, E>) -> (t: AtStep<E>)
        ensures
            self.leads_to(found, t),
    {
        let plan = self.plan;
        match found {
            Err(e) => AtStep::Finished(Err(SimulationError::Node(e))),
            Ok(None) => AtStep::Finished(Err(SimulationError::HeaderNotFound(plan.block_id))),
            Ok(Some(block)) => {
                if plan.transaction_index > block.tx_count {
                    return AtStep::Finished(
                        Err(
                            SimulationError::Rejected(
                                index_error(plan.transaction_index, block.tx_count),
                            ),
                        ),
                    );
                }
                match decode_candidate_transaction(plan.transaction) {
                    Err(e) => AtStep::Finished(Err(SimulationError::Rejected(e))),
                    Ok(request) => AtStep::OpenState(
                        OpenState {
                            parent: block.parent_hash,
                            overrides: EnvOverrides {
                                disable_eip3607: false,
                                disable_nonce_check: false,
                                disable_base_fee: false,
                                disable_block_gas_limit: true,
                                gas_limit: u64::MAX,
                            },
                            run: AtRun {
                                block,
                                transaction_index: plan.transaction_index,
                                call_gas_limit: plan.call_gas_limit,
                                request,
                            },
                        },
                    ),
                }
            },
        }
    }
}

impl OpenState {
    /// The step that this one leads to.
    pub open spec fn leads_to<E>(self, opened: Result<(), E>, t: AtStep<E>) -> bool {
        match opened {
            Ok(()) => t == replay_or_resolve::<E>(self.run, 0, 0),
            Err(e) => t == AtStep::<E>::Finished(Err(SimulationError::Node(e))),
        }
    }

    /// Goes on once the state is there.
    pub fn resume<E>(self, opened: Result<(), E>) -> (t: AtStep<E>)
        ensures
            self.leads_to(opened, t),
    {
        match opened {
            Ok(()) => go_on(self.run, 0, 0),
            Err(e) => AtStep::Finished(Err(SimulationError::Node(e))),
        }
    }
}

/// The sum of two amounts of gas, at most what fits.
pub open spec fn gas_sum(a: int, b: int) -> u64 {
    if a + b <= u64::MAX {
        (a + b) as u64
    } else {
        u64::MAX
    }
}

impl Replay {
    /// Whether this step can be waited for.
    pub open spec fn wf(self) -> bool {
        self.next < self.run.transaction_index
    }

    /// The step that this one leads to.
    pub open spec fn leads_to<E>(self, gas_used: Result<u64, E>, t: AtStep<E>) -> bool {
        match gas_used {
            Ok(gas) => t == replay_or_resolve::<E>(
                self.run,
                (self.next + 1) as u64,
                gas_sum(self.gas_used_so_far as int, gas as int),
            ),
            Err(e) => t == AtStep::<E>::Finished(Err(SimulationError::Node(e))),
        }
    }

    /// Goes on once the transaction was executed and used this much gas.
    pub fn resume<E>(self, gas_used: Result<u64, E>) -> (t: AtStep<E>)
        requires
            self.wf(),
        ensures
            self.leads_to(gas_used, t),
    {
        match gas_used {
            Ok(gas) => go_on(self.run, self.next + 1, self.gas_used_so_far.saturating_add(gas)),
            Err(e) => AtStep::Finished(Err(SimulationError::Node(e))),
        }
    }
}

impl Resolve {
    /// Where the candidate stands once its hash is known.
    pub open spec fn position(self, tx_hash: B256) -> Position {
        Position {
            tx_hash,
            tx_index: self.transaction_index,
            block_number: self.block.number,
            block_timestamp: self.block.timestamp,
        }
    }

    /// The step that this one leads to.
    pub open spec fn leads_to<E>(self, resolved: Result<B256, String>, t: AtStep<E>) -> bool {
        match resolved {
            Ok(tx_hash) => t == AtStep::<E>::Execute(Execute { at: self.position(tx_hash) }),
            Err(message) => answered(t, simulation::halted_view(message@)),
        }
    }

    /// Goes on with the hash of the transaction, or with why there is none.
    pub fn resume<E>(self, resolved: Result<B256, String>) -> (t: AtStep<E>)
        ensures
            self.leads_to(resolved, t),
    {
        match resolved {
            Ok(tx_hash) => AtStep::Execute(
                Execute {
                    at: Position {
                        tx_hash,
                        tx_index: self.transaction_index,
                        block_number: self.block.number,
                        block_timestamp: self.block.timestamp,
                    },
                },
            ),
            Err(message) => AtStep::Finished(Ok(halted(message))),
        }
    }
}

impl Execute {
    /// The step that this one leads to.
    pub open spec fn leads_to<E>(
        self,
        outcome: Result<Option<ExecutionResult>, String>,
        t: AtStep<E>,
    ) -> bool {
        answered(
            t,
            simulation::executed_view(
                outcome,
                "missing execution result for candidate transaction"@,
                self.at,
            ),
        )
    }

    /// Ends with the result of the execution.
    pub fn resume<E>(self, outcome: Result<Option<ExecutionResult>, String>) -> (t: AtStep<E>)
        ensures
            self.leads_to(outcome, t),
    {
        AtStep::Finished(
            Ok(executed(outcome, "missing execution result for candidate transaction", &self.at)),
        )
    }
}

// ---- a whole run ----

/// All that the node replies in a run. The replies that a run does not come to are never looked at.
pub struct AtReplies<E> {
    pub hash: Result<Option<B256>, E>,
    pub env: Result<(), E>,
    pub block: Result<Option<BlockInfo>, E>,
    pub opened: Result<(), E>,
    pub replayed: spec_fn(int) -> Result<u64, E>,
    pub resolved: Result<B256, String>,
    pub executed: Result<Option<ExecutionResult>, String>,
}

/// Whether `t` follows on `s` when the node replies so.
pub open spec fn follows<E>(s: AtStep<E>, a: AtReplies<E>, t: AtStep<E>) -> bool {
    match s {
        AtStep::FindHash(x) => x.leads_to(a.hash, t),
        AtStep::PrepareEnv(x) => x.leads_to(a.env, t),
        AtStep::FetchBlock(x) => x.leads_to(a.block, t),
        AtStep::OpenState(x) => x.leads_to(a.opened, t),
        AtStep::Replay(x) => x.leads_to((a.replayed)(x.next as int), t),
        AtStep::Resolve(x) => x.leads_to(a.resolved, t),
        AtStep::Execute(x) => x.leads_to(a.executed, t),
        AtStep::Finished(_) => t == s,
    }
}

/// The gas that the first `n` transactions of the block used.
pub open spec fn replayed_gas<E>(a: AtReplies<E>, n: nat) -> nat
    decreases n,
{
    if n == 0 {
        0
    } else {
        replayed_gas(a, (n - 1) as nat) + (a.replayed)(n - 1)->Ok_0 as nat
    }
}

/// Whether the first `n` transactions of the block were executed without failure.
pub open spec fn all_replayed<E>(a: AtReplies<E>, n: nat) -> bool {
    forall|i: int| 0 <= i < n ==> (#[trigger] (a.replayed)(i)) is Ok
}

/// Whether the run fails at transaction `i` of the block, and with this error.
pub open spec fn replay_fails<E>(a: AtReplies<E>, i: int, e: E) -> bool {
    0 <= i && all_replayed(a, i as nat) && (a.replayed)(i) == Err::<u64, E>(e)
}

/// The block that the run is about, where the node finds one.
pub open spec fn found<E>(plan: AtPlan, a: AtReplies<E>) -> bool {
    plan.block_id == BlockId::Number(BlockNumberOrTag::Pending) || (a.hash matches Ok(Some(_)))
}

/// Where the candidate stands.
pub open spec fn candidate_position(plan: AtPlan, block: BlockInfo, tx_hash: B256) -> Position {
    Position {
        tx_hash,
        tx_index: plan.transaction_index,
        block_number: block.number,
        block_timestamp: block.timestamp,
    }
}

/// Whether a run with these replies ends like this.
pub open spec fn ends_in<E>(
    plan: AtPlan,
    a: AtReplies<E>,
    r: Result<SimulateTransactionAtResult, SimulationError<E>>,
) -> bool {
    let no_block = Err::<SimulateTransactionAtResult, SimulationError<E>>(
        SimulationError::HeaderNotFound(plan.block_id),
    );
    if !found(plan, a) {
        r == no_block
    } else if let Err(e) = a.env {
        r == Err::<SimulateTransactionAtResult, SimulationError<E>>(SimulationError::Node(e))
    } else {
        match a.block {
            Err(e) => r == Err::<SimulateTransactionAtResult, SimulationError<E>>(
                SimulationError::Node(e),
            ),
            Ok(None) => r == no_block,
            Ok(Some(block)) => if plan.transaction_index > block.tx_count {
                refused(
                    AtStep::Finished(r),
                    ErrorView {
                        code: INVALID_PARAMS_CODE,
                        message: index_message(plan.transaction_index, block.tx_count),
                    },
                )
            } else {
                match transaction_request::candidate(plan.transaction) {
                    Err(e) => refused(AtStep::Finished(r), e),
                    Ok(_) => match a.opened {
                        Err(e) => r == Err::<SimulateTransactionAtResult, SimulationError<E>>(
                            SimulationError::Node(e),
                        ),
                        Ok(()) => if !all_replayed(a, plan.transaction_index as nat) {
                            exists|i: int, e: E|
                                #![trigger replay_fails(a, i, e)]
                                i < plan.transaction_index && replay_fails(a, i, e) && r == Err::<
                                    SimulateTransactionAtResult,
                                    SimulationError<E>,
                                >(SimulationError::Node(e))
                        } else {
                            match a.resolved {
                                Err(message) => answered(
                                    AtStep::Finished(r),
                                    simulation::halted_view(message@),
                                ),
                                Ok(tx_hash) => answered(
                                    AtStep::Finished(r),
                                    simulation::executed_view(
                                        a.executed,
                                        "missing execution result for candidate transaction"@,
                                        candidate_position(plan, block, tx_hash),
                                    ),
                                ),
                            }
                        },
                    },
                }
            },
        }
    }
}

/// The gas limit that the candidate of a run gets if it names none.
pub open spec fn run_gas_limit<E>(plan: AtPlan, a: AtReplies<E>, block: BlockInfo) -> u64 {
    candidate_gas_limit(
        gas_left(
            block.gas_limit,
            gas_sum(replayed_gas(a, plan.transaction_index as nat) as int, 0),
        ),
        plan.call_gas_limit,
    )
}

/// Whether the block is there, the index lies within it and the candidate is one, so that `run` is
/// what the run goes on with.
pub open spec fn admitted<E>(plan: AtPlan, a: AtReplies<E>, run: AtRun) -> bool {
    &&& found(plan, a)
    &&& a.env is Ok
    &&& a.block == Ok::<Option<BlockInfo>, E>(Some(run.block))
    &&& plan.transaction_index <= run.block.tx_count
    &&& run.transaction_index == plan.transaction_index
    &&& run.call_gas_limit == plan.call_gas_limit
    &&& transaction_request::candidate(plan.transaction) == Ok::<RequestView, ErrorView>(
        run.request@,
    )
}

/// Whether a run with these replies can stand at this step.
pub open spec fn on_the_way<E>(plan: AtPlan, a: AtReplies<E>, s: AtStep<E>) -> bool {
    match s {
        AtStep::FindHash(x) => x.plan == plan && plan.block_id != BlockId::Number(
            BlockNumberOrTag::Pending,
        ),
        AtStep::PrepareEnv(x) => x.plan == plan && found(plan, a),
        AtStep::FetchBlock(x) => x.plan == plan && found(plan, a) && a.env is Ok,
        AtStep::OpenState(x) => admitted(plan, a, x.run),
        AtStep::Replay(x) => {
            &&& admitted(plan, a, x.run)
            &&& a.opened is Ok
            &&& x.wf()
            &&& all_replayed(a, x.next as nat)
            &&& x.gas_used_so_far == gas_sum(replayed_gas(a, x.next as nat) as int, 0)
        },
        AtStep::Resolve(x) => {
            &&& admitted(
                plan,
                a,
                AtRun {
                    block: x.block,
                    transaction_index: x.transaction_index,
                    call_gas_limit: plan.call_gas_limit,
                    request: x.request,
                },
            )
            &&& a.opened is Ok
            &&& all_replayed(a, plan.transaction_index as nat)
            &&& x.default_gas_limit == run_gas_limit(plan, a, x.block)
        },
        AtStep::Execute(x) => {
            &&& found(plan, a)
            &&& a.env is Ok
            &&& a.block matches Ok(Some(block))
            &&& plan.transaction_index <= block.tx_count
            &&& transaction_request::candidate(plan.transaction) is Ok
            &&& a.opened is Ok
            &&& all_replayed(a, plan.transaction_index as nat)
            &&& a.resolved matches Ok(tx_hash)
            &&& x.at == candidate_position(plan, block, tx_hash)
        },
        AtStep::Finished(r) => ends_in(plan, a, r),
    }
}

proof fn lemma_replay_step<E>(plan: AtPlan, a: AtReplies<E>, run: AtRun, n: u64, gas: u64)
    requires
        admitted(plan, a, run),
        a.opened is Ok,
        n <= run.transaction_index,
        all_replayed(a, n as nat),
        gas == gas_sum(replayed_gas(a, n as nat) as int, 0),
    ensures
        on_the_way(plan, a, replay_or_resolve::<E>(run, n, gas)),
{
}

/// A run that stands at one step stands at the next.
pub proof fn law_step<E>(plan: AtPlan, a: AtReplies<E>, s: AtStep<E>, t: AtStep<E>)
    requires
        on_the_way(plan, a, s),
        follows(s, a, t),
    ensures
        on_the_way(plan, a, t),
{
    match s {
        AtStep::OpenState(x) => {
            if a.opened is Ok {
                lemma_replay_step(plan, a, x.run, 0, 0);
            }
        },
        AtStep::Replay(x) => {
            let i = x.next as int;
            match (a.replayed)(i) {
                Ok(gas) => {
                    let n = (x.next + 1) as u64;
                    assert(all_replayed(a, n as nat));
                    assert(replayed_gas(a, n as nat) == replayed_gas(a, x.next as nat) + gas);
                    lemma_replay_step(
                        plan,
                        a,
                        x.run,
                        n,
                        gas_sum(x.gas_used_so_far as int, gas as int),
                    );
                },
                Err(e) => {
                    assert(replay_fails(a, i, e));
                    assert(!all_replayed(a, plan.transaction_index as nat));
                },
            }
        },
        _ => {},
    }
}

/// A simulation ends as the node's replies have it, whatever they are: with an error for a block
/// that is not there, parameters that are refused or a failure of the node, and otherwise with the
/// result of the candidate, which ran behind the transactions in front of its place.
pub proof fn law_run<E>(plan: AtPlan, a: AtReplies<E>, steps: Seq<AtStep<E>>)
    requires
        steps.len() > 0,
        steps[0] == first_step::<E>(plan),
        forall|i: int|
            0 <= i < steps.len() - 1 ==> follows(#[trigger] steps[i], a, steps[i + 1]),
    ensures
        on_the_way(plan, a, steps.last()),
        steps.last() matches AtStep::Finished(r) ==> ends_in(plan, a, r),
    decreases steps.len(),
{
    if steps.len() == 1 {
        assert(on_the_way(plan, a, steps[0]));
    } else {
        let before = steps.drop_last();
        assert forall|i: int| 0 <= i < before.len() - 1 implies follows(
            #[trigger] before[i],
            a,
            before[i + 1],
        ) by {
            assert(before[i] == steps[i] && before[i + 1] == steps[i + 1]);
        }
        law_run(plan, a, before);
        assert(before.last() == steps[steps.len() - 2]);
        law_step(plan, a, steps[steps.len() - 2], steps.last());
    }
}

/// How many steps may still come before the end.
pub open spec fn steps_left<E>(index: u64, s: AtStep<E>) -> int {
    match s {
        AtStep::FindHash(_) => index + 6,
        AtStep::PrepareEnv(_) => index + 5,
        AtStep::FetchBlock(_) => index + 4,
        AtStep::OpenState(_) => index + 3,
        AtStep::Replay(x) => index - x.next + 2,
        AtStep::Resolve(_) => 2,
        AtStep::Execute(_) => 1,
        AtStep::Finished(_) => 0,
    }
}

/// Every step brings the end nearer: the node is asked for as many things as there are transactions
/// in front of the candidate, and six more, at most.
pub proof fn law_run_ends<E>(plan: AtPlan, a: AtReplies<E>, s: AtStep<E>, t: AtStep<E>)
    requires
        on_the_way(plan, a, s),
        follows(s, a, t),
        !(s is Finished),
    ensures
        0 <= steps_left(plan.transaction_index, t) < steps_left(plan.transaction_index, s),
        steps_left(plan.transaction_index, s) <= plan.transaction_index + 6,
{
}

// ---- what a run asks, and what it answers ----

/// The gas that transactions used adds up, one transaction after the other.
pub proof fn law_replayed_gas_adds_up<E>(a: AtReplies<E>, n: nat)
    ensures
        replayed_gas(a, 0) == 0,
        (a.replayed)(n as int) matches Ok(gas) ==> replayed_gas(a, n + 1) == replayed_gas(a, n)
            + gas,
{
}

/// The block that the node is asked about: a pending one as it is, any other by the hash that was
/// found for it.
spec fn right_target<E>(plan: AtPlan, a: AtReplies<E>, target: BlockId) -> bool {
    if plan.block_id == BlockId::Number(BlockNumberOrTag::Pending) {
        target == plan.block_id
    } else {
        a.hash matches Ok(Some(hash)) && target == (BlockId::Hash {
            block_hash: hash,
            require_canonical: None,
        })
    }
}

/// What else the steps of a run ask for.
spec fn asks_rightly<E>(plan: AtPlan, a: AtReplies<E>, s: AtStep<E>) -> bool {
    match s {
        AtStep::PrepareEnv(x) => right_target(plan, a, x.target),
        AtStep::FetchBlock(x) => right_target(plan, a, x.target),
        AtStep::OpenState(x) => {
            &&& x.parent == x.run.block.parent_hash
            &&& !x.overrides.disable_eip3607
            &&& !x.overrides.disable_nonce_check
            &&& !x.overrides.disable_base_fee
            &&& x.overrides.disable_block_gas_limit
            &&& x.overrides.gas_limit == u64::MAX
        },
        _ => true,
    }
}

proof fn lemma_run_to<E>(plan: AtPlan, a: AtReplies<E>, steps: Seq<AtStep<E>>, i: int)
    requires
        steps.len() > 0,
        steps[0] == first_step::<E>(plan),
        forall|k: int|
            0 <= k < steps.len() - 1 ==> follows(#[trigger] steps[k], a, steps[k + 1]),
        0 <= i < steps.len(),
    ensures
        on_the_way(plan, a, steps[i]),
        asks_rightly(plan, a, steps[i]),
    decreases i,
{
    if i > 0 {
        lemma_run_to(plan, a, steps, i - 1);
        assert(follows(steps[i - 1], a, steps[i - 1 + 1]));
        law_step(plan, a, steps[i - 1], steps[i]);
    }
}

/// In every run, whatever the node replies, the node is asked about the block that was asked for: a
/// pending block as it is, any other under the hash that was found for it. The candidate runs on the
/// state behind the parent of that block, without a limit on the gas of the block, and with every
/// other check left as it is.
pub proof fn law_run_asks_for_the_block<E>(
    plan: AtPlan,
    a: AtReplies<E>,
    steps: Seq<AtStep<E>>,
    i: int,
)
    requires
        steps.len() > 0,
        steps[0] == first_step::<E>(plan),
        forall|k: int|
            0 <= k < steps.len() - 1 ==> follows(#[trigger] steps[k], a, steps[k + 1]),
        0 <= i < steps.len(),
    ensures
        steps[i] matches AtStep::FindHash(x) ==> x.plan.block_id == plan.block_id && plan.block_id
            != BlockId::Number(BlockNumberOrTag::Pending),
        steps[i] matches AtStep::PrepareEnv(x) ==> {
            &&& plan.block_id == BlockId::Number(BlockNumberOrTag::Pending) ==> x.target
                == plan.block_id
            &&& plan.block_id != BlockId::Number(BlockNumberOrTag::Pending) ==> (a.hash matches Ok(
                Some(hash),
            ) && x.target == (BlockId::Hash { block_hash: hash, require_canonical: None }))
        },
        steps[i] matches AtStep::FetchBlock(x) ==> {
            &&& plan.block_id == BlockId::Number(BlockNumberOrTag::Pending) ==> x.target
                == plan.block_id
            &&& plan.block_id != BlockId::Number(BlockNumberOrTag::Pending) ==> (a.hash matches Ok(
                Some(hash),
            ) && x.target == (BlockId::Hash { block_hash: hash, require_canonical: None }))
        },
        steps[i] matches AtStep::OpenState(x) ==> (a.block matches Ok(Some(block)) && {
            &&& x.parent == block.parent_hash
            &&& x.overrides.gas_limit == u64::MAX
            &&& x.overrides.disable_block_gas_limit
            &&& !x.overrides.disable_eip3607
            &&& !x.overrides.disable_nonce_check
            &&& !x.overrides.disable_base_fee
        }),
{
    lemma_run_to(plan, a, steps, i);
}

/// Whether transaction number `j` of the block was asked for before step number `i`.
pub open spec fn asked_before<E>(steps: Seq<AtStep<E>>, i: int, j: int) -> bool {
    exists|k: int|
        0 <= k < i && (#[trigger] steps[k]) is Replay && (steps[k]->Replay_0).next == j
}

/// In every run the transactions of the block in front of the candidate are executed in order, from
/// the first on and none twice, and all of them before the candidate is made a transaction.
pub proof fn law_run_replays_in_order<E>(
    plan: AtPlan,
    a: AtReplies<E>,
    steps: Seq<AtStep<E>>,
    i: int,
)
    requires
        steps.len() > 0,
        steps[0] == first_step::<E>(plan),
        forall|k: int|
            0 <= k < steps.len() - 1 ==> follows(#[trigger] steps[k], a, steps[k + 1]),
        0 <= i < steps.len(),
    ensures
        steps[i] matches AtStep::Replay(x) ==> x.next < plan.transaction_index,
        i > 0 ==> (steps[i - 1] is OpenState && (steps[i] matches AtStep::Replay(y)) ==> (
        steps[i]->Replay_0).next == 0),
        i > 0 ==> (steps[i - 1] is Replay && steps[i] is Replay ==> (steps[i]->Replay_0).next == (
        steps[i - 1]->Replay_0).next + 1),
        steps[i] matches AtStep::Replay(x) ==> forall|j: int|
            0 <= j < x.next ==> #[trigger] asked_before(steps, i, j),
        steps[i] is Resolve ==> forall|j: int|
            0 <= j < plan.transaction_index ==> #[trigger] asked_before(steps, i, j),
    decreases i,
{
    lemma_run_to(plan, a, steps, i);
    if i > 0 {
        lemma_run_to(plan, a, steps, i - 1);
        law_run_replays_in_order(plan, a, steps, i - 1);
        assert(follows(steps[i - 1], a, steps[i - 1 + 1]));
        if let AtStep::Replay(before) = steps[i - 1] {
            let done: int = before.next + 1;
            assert forall|j: int| 0 <= j < done implies #[trigger] asked_before(steps, i, j) by {
                if j == before.next {
                    assert(steps[i - 1] is Replay);
                } else {
                    assert(asked_before(steps, i - 1, j));
                    let k = choose|k: int|
                        0 <= k < i - 1 && (#[trigger] steps[k]) is Replay && (
                        steps[k]->Replay_0).next == j;
                    assert(steps[k] is Replay);
                }
            }
        }
    }
}

/// In every run the request that is made a transaction is the candidate's own. Its default gas limit
/// is what the transactions in front of it leave of the gas limit of the block, nothing if they used
/// more, and no more than the node's own limit for a call if it has one.
pub proof fn law_candidate_gets_what_is_left<E>(
    plan: AtPlan,
    a: AtReplies<E>,
    steps: Seq<AtStep<E>>,
    i: int,
)
    requires
        steps.len() > 0,
        steps[0] == first_step::<E>(plan),
        forall|k: int|
            0 <= k < steps.len() - 1 ==> follows(#[trigger] steps[k], a, steps[k + 1]),
        0 <= i < steps.len(),
        steps[i] is Resolve,
    ensures
        ({
            let x = steps[i]->Resolve_0;
            let used = replayed_gas(a, plan.transaction_index as nat);
            &&& transaction_request::candidate(plan.transaction) == Ok::<RequestView, ErrorView>(
                x.request@,
            )
            &&& a.block matches Ok(Some(block)) && {
                let left: int = if used <= block.gas_limit {
                    block.gas_limit - used
                } else {
                    0
                };
                &&& plan.call_gas_limit == 0 ==> x.default_gas_limit == left
                &&& plan.call_gas_limit > 0 ==> x.default_gas_limit == (if left
                    < plan.call_gas_limit {
                    left
                } else {
                    plan.call_gas_limit as int
                })
            }
        }),
        forall|j: int|
            0 <= j < plan.transaction_index ==> (#[trigger] (a.replayed)(j)) is Ok,
{
    lemma_run_to(plan, a, steps, i);
    assert(all_replayed(a, plan.transaction_index as nat));
}

/// In every run the transaction that is executed is the one that the node made of the candidate, at
/// the place that was asked for.
pub proof fn law_candidate_stands_where_asked<E>(
    plan: AtPlan,
    a: AtReplies<E>,
    steps: Seq<AtStep<E>>,
    i: int,
)
    requires
        steps.len() > 0,
        steps[0] == first_step::<E>(plan),
        forall|k: int|
            0 <= k < steps.len() - 1 ==> follows(#[trigger] steps[k], a, steps[k + 1]),
        0 <= i < steps.len(),
        steps[i] is Execute,
    ensures
        ({
            let at = (steps[i]->Execute_0).at;
            &&& at.tx_index == plan.transaction_index
            &&& a.resolved == Ok::<B256, String>(at.tx_hash)
            &&& a.block matches Ok(Some(block)) && at.block_number == block.number
                && at.block_timestamp == block.timestamp
        }),
{
    lemma_run_to(plan, a, steps, i);
}

/// Whatever way the candidate ended, the final result reports the gas that the execution used.
pub proof fn law_final_gas<E>(
    plan: AtPlan,
    a: AtReplies<E>,
    steps: Seq<AtStep<E>>,
    r: SimulateTransactionAtResult,
)
    requires
        steps.len() > 0,
        steps[0] == first_step::<E>(plan),
        forall|k: int|
            0 <= k < steps.len() - 1 ==> follows(#[trigger] steps[k], a, steps[k + 1]),
        steps.last() == AtStep::<E>::Finished(Ok(r)),
        a.resolved is Ok,
    ensures
        a.executed matches Ok(Some(ExecutionResult::Success { gas_used, .. })) ==> r.gas_used@
            == gas_used,
        a.executed matches Ok(Some(ExecutionResult::Revert { gas_used, .. })) ==> r.gas_used@
            == gas_used,
        a.executed matches Ok(Some(ExecutionResult::Halt { gas_used, .. })) ==> r.gas_used@
            == gas_used,
{
    law_run(plan, a, steps);
    let block = a.block->Ok_0->0;
    let tx_hash = a.resolved->Ok_0;
    if let Ok(Some(result)) = a.executed {
        simulation::law_gas_is_reported(result, candidate_position(plan, block, tx_hash), r);
    }
}

/// Every log of a candidate that succeeded carries the index that the simulation was asked for, the
/// hash of the transaction and the number and time of the block; the logs are those that the
/// execution left, in order.
pub proof fn law_final_logs<E>(
    plan: AtPlan,
    a: AtReplies<E>,
    steps: Seq<AtStep<E>>,
    r: SimulateTransactionAtResult,
    output: Vec<u8>,
    gas_used: u64,
    logs: Vec<LogEntry>,
)
    requires
        steps.len() > 0,
        steps[0] == first_step::<E>(plan),
        forall|k: int|
            0 <= k < steps.len() - 1 ==> follows(#[trigger] steps[k], a, steps[k + 1]),
        steps.last() == AtStep::<E>::Finished(Ok(r)),
        a.resolved is Ok,
        a.executed == Ok::<Option<ExecutionResult>, String>(
            Some(ExecutionResult::Success { output, gas_used, logs }),
        ),
    ensures
        r.status == SimulateTransactionAtStatus::Success,
        r.gas_used@ == gas_used,
        r.return_data@ == output@,
        r.error is None,
        r.logs@.len() == logs@.len(),
        a.block matches Ok(Some(block)) && forall|i: int|
            0 <= i < logs@.len() ==> {
                let log = #[trigger] r.logs@[i];
                &&& log.inner == logs@[i]
                &&& log.transaction_index == Some(plan.transaction_index)
                &&& log.transaction_hash == Some(a.resolved->Ok_0)
                &&& log.block_number == Some(block.number)
                &&& log.block_timestamp == Some(block.timestamp)
                &&& log.block_hash is None
                &&& log.log_index is None
                &&& !log.removed
            },
{
    law_run(plan, a, steps);
    let block = a.block->Ok_0->0;
    let at = candidate_position(plan, block, a.resolved->Ok_0);
    simulation::law_success_is_reported(output, gas_used, logs, at, r);
}

/// A candidate that failed is answered for all the same: with the output and the message of a revert,
/// with the message of a halt, and with the node's words where it was never executed to an end.
pub proof fn law_final_failure<E>(
    plan: AtPlan,
    a: AtReplies<E>,
    steps: Seq<AtStep<E>>,
    r: SimulateTransactionAtResult,
)
    requires
        steps.len() > 0,
        steps[0] == first_step::<E>(plan),
        forall|k: int|
            0 <= k < steps.len() - 1 ==> follows(#[trigger] steps[k], a, steps[k + 1]),
        steps.last() == AtStep::<E>::Finished(Ok(r)),
    ensures
        a.resolved matches Err(message) ==> {
            &&& r.status == SimulateTransactionAtStatus::Halt
            &&& r.gas_used@ == 0
            &&& r.return_data@.len() == 0
            &&& r.logs@.len() == 0
            &&& r.error matches Some(e) && e@ == message@
        },
        a.resolved is Ok ==> (a.executed matches Err(message) ==> {
            &&& r.status == SimulateTransactionAtStatus::Halt
            &&& r.gas_used@ == 0
            &&& r.return_data@.len() == 0
            &&& r.logs@.len() == 0
            &&& r.error matches Some(e) && e@ == message@
        }),
        a.resolved is Ok ==> (a.executed matches Ok(None) ==> {
            &&& r.status == SimulateTransactionAtStatus::Halt
            &&& r.gas_used@ == 0
            &&& r.return_data@.len() == 0
            &&& r.logs@.len() == 0
            &&& r.error matches Some(e) && e@
                == "missing execution result for candidate transaction"@
        }),
        a.resolved is Ok ==> (a.executed matches Ok(
            Some(ExecutionResult::Revert { output, gas_used, message }),
        ) ==> {
            &&& r.status == SimulateTransactionAtStatus::Revert
            &&& r.gas_used@ == gas_used
            &&& r.return_data@ == output@
            &&& r.logs@.len() == 0
            &&& r.error is Some
            &&& forall|rest: Seq<char>|
                message@ == #[trigger] ("execution reverted: "@ + rest) ==> r.error->0@ == rest
            &&& (forall|rest: Seq<char>| message@ != #[trigger] ("execution reverted: "@ + rest))
                ==> r.error->0@ == message@
        }),
        a.resolved is Ok ==> (a.executed matches Ok(
            Some(ExecutionResult::Halt { gas_used, message }),
        ) ==> {
            &&& r.status == SimulateTransactionAtStatus::Halt
            &&& r.gas_used@ == gas_used
            &&& r.return_data@.len() == 0
            &&& r.logs@.len() == 0
            &&& r.error matches Some(e) && e@ == message@
        }),
{
    law_run(plan, a, steps);
    let block = a.block->Ok_0->0;
    match a.resolved {
        Err(message) => {
            simulation::law_never_executed(message@, r);
        },
        Ok(tx_hash) => {
            let at = candidate_position(plan, block, tx_hash);
            match a.executed {
                Err(message) => {
                    simulation::law_never_executed(message@, r);
                },
                Ok(None) => {
                    simulation::law_never_executed(
                        "missing execution result for candidate transaction"@,
                        r,
                    );
                },
                Ok(Some(ExecutionResult::Revert { output, gas_used, message })) => {
                    simulation::law_revert_is_reported(output, gas_used, message, at, r);
                },
                Ok(Some(ExecutionResult::Halt { gas_used, message })) => {
                    simulation::law_halt_is_reported(gas_used, message, at, r);
                },
                _ => {},
            }
        },
    }
}

/// A run ends with a result exactly if the block was found, the index lies within it or right behind
/// its end, the candidate is one, and the node failed at nothing in front of the candidate.
pub proof fn law_when_answered<E>(
    plan: AtPlan,
    a: AtReplies<E>,
    steps: Seq<AtStep<E>>,
    r: Result<SimulateTransactionAtResult, SimulationError<E>>,
)
    requires
        steps.len() > 0,
        steps[0] == first_step::<E>(plan),
        forall|k: int|
            0 <= k < steps.len() - 1 ==> follows(#[trigger] steps[k], a, steps[k + 1]),
        steps.last() == AtStep::<E>::Finished(r),
    ensures
        r is Ok <==> {
            &&& plan.block_id == BlockId::Number(BlockNumberOrTag::Pending) || (a.hash matches Ok(
                Some(_),
            ))
            &&& a.env is Ok
            &&& a.block matches Ok(Some(block)) && plan.transaction_index <= block.tx_count
            &&& transaction_request::candidate(plan.transaction) is Ok
            &&& a.opened is Ok
            &&& forall|j: int|
                0 <= j < plan.transaction_index ==> (#[trigger] (a.replayed)(j)) is Ok
        },
{
    law_run(plan, a, steps);
}

/// What a run fails with: a block that is not found is named as it was asked for, an index behind the
/// end of the block is named together with the number of its transactions, a candidate that is none
/// is refused for its own reason, and a failure of the node is handed on, the first one in the order
/// in which the node is asked.
pub proof fn law_why_not_answered<E>(
    plan: AtPlan,
    a: AtReplies<E>,
    steps: Seq<AtStep<E>>,
    e: SimulationError<E>,
)
    requires
        steps.len() > 0,
        steps[0] == first_step::<E>(plan),
        forall|k: int|
            0 <= k < steps.len() - 1 ==> follows(#[trigger] steps[k], a, steps[k + 1]),
        steps.last() == AtStep::<E>::Finished(Err(e)),
    ensures
        ({
            let found = plan.block_id == BlockId::Number(BlockNumberOrTag::Pending) || (
            a.hash matches Ok(Some(_)));
            &&& !found ==> e == SimulationError::<E>::HeaderNotFound(plan.block_id)
            &&& found ==> (a.env matches Err(f) ==> e == SimulationError::Node(f))
            &&& found && a.env is Ok ==> (a.block matches Err(f) ==> e == SimulationError::Node(f))
            &&& found && a.env is Ok ==> (a.block matches Ok(None) ==> e == SimulationError::<
                E,
            >::HeaderNotFound(plan.block_id))
            &&& found && a.env is Ok ==> (a.block matches Ok(Some(block)) ==> {
                &&& plan.transaction_index > block.tx_count ==> (e matches SimulationError::Rejected(
                    o,
                ) && o.code == -32602 && o.message@ == "transactionIndex "@ + text::decimal(
                    plan.transaction_index as nat,
                ) + " exceeds block transaction count "@ + text::decimal(block.tx_count as nat))
                &&& plan.transaction_index <= block.tx_count ==> (transaction_request::candidate(
                    plan.transaction,
                ) matches Err(v) ==> (e matches SimulationError::Rejected(o) && o.code == v.code
                    && o.message@ == v.message))
                &&& plan.transaction_index <= block.tx_count && transaction_request::candidate(
                    plan.transaction,
                ) is Ok ==> (a.opened matches Err(f) ==> e == SimulationError::Node(f))
                &&& plan.transaction_index <= block.tx_count && transaction_request::candidate(
                    plan.transaction,
                ) is Ok && a.opened is Ok ==> forall|j: int|
                    0 <= j < plan.transaction_index && (#[trigger] (a.replayed)(j)) is Err && (
                    forall|k: int| 0 <= k < j ==> (#[trigger] (a.replayed)(k)) is Ok) ==> e
                        == SimulationError::Node((a.replayed)(j)->Err_0)
            })
        }),
{
    law_run(plan, a, steps);
    if a.block matches Ok(Some(_)) && a.opened is Ok {
        assert forall|j: int|
            0 <= j < plan.transaction_index && (#[trigger] (a.replayed)(j)) is Err && (
            forall|k: int| 0 <= k < j ==> (#[trigger] (a.replayed)(k)) is Ok) && ends_in(
                plan,
                a,
                Err::<SimulateTransactionAtResult, SimulationError<E>>(e),
            ) && found(plan, a) && a.env is Ok && plan.transaction_index
                <= (a.block->Ok_0->0).tx_count && transaction_request::candidate(
                plan.transaction,
            ) is Ok implies e == SimulationError::Node((a.replayed)(j)->Err_0) by {
            assert(!all_replayed(a, plan.transaction_index as nat));
            let (i, f) = choose|i: int, f: E|
                #![trigger replay_fails(a, i, f)]
                i < plan.transaction_index && replay_fails(a, i, f) && e == SimulationError::Node(
                    f,
                );
            if i < j {
                assert((a.replayed)(i) is Ok);
            } else if j < i {
                assert((a.replayed)(j) is Ok);
            }
        }
    }
}

/// A simulated call is a success if it says so; a failure is a revert if it carries the code of one,
/// and a halt otherwise.
pub proof fn law_call_status(call: SimCallResult)
    ensures
        call_status(call) == SimulateTransactionAtStatus::Success <==> call.status,
        call_status(call) == SimulateTransactionAtStatus::Revert <==> !call.status && (
        call.error matches Some(err) && err.code == 3),
        call_status(call) == SimulateTransactionAtStatus::Halt <==> !call.status && (
        call.error matches Some(err) ==> err.code != 3),
{
}

} // verus!
