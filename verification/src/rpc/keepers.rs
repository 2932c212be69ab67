//! `keepers_simulateAtLatestState`: a bundle of transactions, executed one behind the other on the
//! latest state.
//!
//! The node does the looking up and the executing. What it is asked next is a [`BundleStep`]; each
//! step but the last has a `resume` that takes the node's reply and gives the step that follows.
use crate::node::primitives::B256;
use crate::rpc::error_object::{ErrorObject, ErrorView};
use crate::rpc::simulation;
use crate::rpc::simulation::{
    executed, halted, BlockId, BlockInfo, BlockNumberOrTag, EnvOverrides, ExecutionResult, LogEntry,
    Position, ResultView, SimulateTransactionAtResult, SimulateTransactionAtStatus,
    SimulationError,
};
use crate::rpc::transaction_request;
use crate::rpc::transaction_request::{
    decode_candidate_transaction, RequestView, TransactionRequest,
};
use crate::rpc::tx_input::SimulationTxInput;
use vstd::prelude::*;
use vstd::string::*;

verus! {

// ---- gas ----

/// The gas that the calls name, all together.
pub open spec fn named_gas(calls: Seq<TransactionRequest>) -> nat
    decreases calls.len(),
{
    if calls.len() == 0 {
        0
    } else {
        named_gas(calls.drop_last()) + match calls.last().gas {
            Some(gas) => gas as nat,
            None => 0,
        }
    }
}

/// How many of the calls name no gas limit.
pub open spec fn unnamed_count(calls: Seq<TransactionRequest>) -> nat
    decreases calls.len(),
{
    if calls.len() == 0 {
        0
    } else {
        unnamed_count(calls.drop_last()) + match calls.last().gas {
            Some(_) => 0nat,
            None => 1,
        }
    }
}

/// The gas limit of the block that a bundle runs in: that of the latest block, or more if the calls
/// name more, as far as it fits.
pub open spec fn bundle_gas_limit(block_gas_limit: u64, calls: Seq<TransactionRequest>) -> u64 {
    let named = named_gas(calls);
    if named <= block_gas_limit {
        block_gas_limit
    } else if named <= u64::MAX {
        named as u64
    } else {
        u64::MAX
    }
}

/// The gas limit of a call that names none: an even share of what the others leave.
pub open spec fn even_share(block_gas_limit: u64, calls: Seq<TransactionRequest>) -> u64 {
    let named = named_gas(calls);
    let unnamed = unnamed_count(calls);
    if unnamed == 0 || named >= block_gas_limit {
        0
    } else {
        ((block_gas_limit - named) / unnamed as int) as u64
    }
}

/// The gas that the calls name, as far as it fits, and how many name none.
fn count_gas(calls: &[TransactionRequest]) -> (r: (u64, usize))
    ensures
        r.0 == (if named_gas(calls@) <= u64::MAX {
            named_gas(calls@) as u64
        } else {
            u64::MAX
        }),
        r.1 == unnamed_count(calls@),
        r.1 <= calls@.len(),
{
    let mut named: u64 = 0;
    let mut unnamed: usize = 0;
    let mut i: usize = 0;
    while i < calls.len()
        invariant
            i <= calls@.len(),
            unnamed <= i,
            named == (if named_gas(calls@.take(i as int)) <= u64::MAX {
                named_gas(calls@.take(i as int)) as u64
            } else {
                u64::MAX
            }),
            unnamed == unnamed_count(calls@.take(i as int)),
        decreases calls@.len() - i,
    {
        assert(calls@.take(i + 1).drop_last() =~= calls@.take(i as int));
        match calls[i].gas {
            Some(gas) => {
                named = named.saturating_add(gas);
            },
            None => {
                unnamed += 1;
            },
        }
        i += 1;
    }
    assert(calls@.take(i as int) =~= calls@);
    (named, unnamed)
}

/// The gas limit of the block that a bundle runs in.
pub fn lenient_block_gas_limit(block_gas_limit: u64, calls: &[TransactionRequest]) -> (r: u64)
    ensures
        r == bundle_gas_limit(block_gas_limit, calls@),
{
    let (named, _) = count_gas(calls);
    if named > block_gas_limit {
        named
    } else {
        block_gas_limit
    }
}

/// The gas limit of a call that names none.
pub fn default_gas_limit(block_gas_limit: u64, calls: &[TransactionRequest]) -> (r: u64)
    ensures
        r == even_share(block_gas_limit, calls@),
{
    let (named, unnamed) = count_gas(calls);
    if unnamed > 0 {
        proof {
            assert(0u64 / (unnamed as u64) == 0) by (nonlinear_arith)
                requires
                    unnamed > 0,
            ;
        }
        block_gas_limit.saturating_sub(named) / unnamed as u64
    } else {
        0
    }
}

/// The calls of a bundle, each with the gas it names or its even share, fit into the block that the
/// bundle runs in, unless they name more gas than fits into a number.
pub proof fn law_bundle_fits(block_gas_limit: u64, calls: Seq<TransactionRequest>)
    requires
        named_gas(calls) <= u64::MAX,
    ensures
        ({
            let limit = bundle_gas_limit(block_gas_limit, calls);
            named_gas(calls) + unnamed_count(calls) * even_share(limit, calls) <= limit
        }),
        bundle_gas_limit(block_gas_limit, calls) >= block_gas_limit,
{
    let limit = bundle_gas_limit(block_gas_limit, calls);
    let unnamed = unnamed_count(calls);
    let share = even_share(limit, calls);
    if unnamed == 0 || named_gas(calls) >= limit {
        assert(unnamed * share == 0) by (nonlinear_arith)
            requires
                share == 0,
        ;
    } else {
        let left = limit - named_gas(calls);
        assert(left / unnamed as int <= left && unnamed * (left / unnamed as int) <= left && left
            / unnamed as int >= 0) by (nonlinear_arith)
            requires
                unnamed > 0,
                left >= 0,
        ;
    }
}

/// The gas that calls name adds up, and a call that names none adds nothing to it; how many name none
/// is counted one by one.
pub proof fn law_gas_adds_up(calls: Seq<TransactionRequest>, call: TransactionRequest)
    ensures
        named_gas(Seq::<TransactionRequest>::empty()) == 0,
        call.gas matches Some(gas) ==> named_gas(calls.push(call)) == named_gas(calls) + gas,
        call.gas is None ==> named_gas(calls.push(call)) == named_gas(calls),
        unnamed_count(Seq::<TransactionRequest>::empty()) == 0,
        call.gas is Some ==> unnamed_count(calls.push(call)) == unnamed_count(calls),
        call.gas is None ==> unnamed_count(calls.push(call)) == unnamed_count(calls) + 1,
{
    assert(calls.push(call).drop_last() =~= calls);
}

/// The block that a bundle runs in has the larger of two gas limits: that of the latest block, and
/// the gas that the calls name, as far as it fits into a number.
pub proof fn law_block_has_room(block_gas_limit: u64, calls: Seq<TransactionRequest>)
    ensures
        bundle_gas_limit(block_gas_limit, calls) >= block_gas_limit,
        named_gas(calls) <= u64::MAX ==> bundle_gas_limit(block_gas_limit, calls) >= named_gas(
            calls,
        ),
        named_gas(calls) > u64::MAX ==> bundle_gas_limit(block_gas_limit, calls) == u64::MAX,
        bundle_gas_limit(block_gas_limit, calls) == block_gas_limit || bundle_gas_limit(
            block_gas_limit,
            calls,
        ) == named_gas(calls) || named_gas(calls) > u64::MAX,
{
}

/// The shares of the calls that name no gas limit are equal, and as large as they can be: one more
/// unit for each of them would not fit any more. Without such calls, or without anything left for
/// them, the share is nothing.
pub proof fn law_share_is_largest(block_gas_limit: u64, calls: Seq<TransactionRequest>)
    ensures
        unnamed_count(calls) > 0 && named_gas(calls) <= block_gas_limit ==> {
            let left = block_gas_limit - named_gas(calls);
            let share = even_share(block_gas_limit, calls) as int;
            &&& share == left / unnamed_count(calls) as int
            &&& unnamed_count(calls) * share <= left
            &&& left < unnamed_count(calls) * (share + 1)
        },
        unnamed_count(calls) == 0 || named_gas(calls) > block_gas_limit ==> even_share(
            block_gas_limit,
            calls,
        ) == 0,
{
    let unnamed = unnamed_count(calls);
    if unnamed > 0 && named_gas(calls) <= block_gas_limit {
        let left = block_gas_limit - named_gas(calls);
        let share = left / unnamed as int;
        assert(0 <= share <= left && unnamed * share <= left && left < unnamed * (share + 1))
            by (nonlinear_arith)
            requires
                share == left / unnamed as int,
                unnamed > 0,
                left >= 0,
        ;
    }
}

// ---- the steps ----

/// The latest block.
pub open spec fn latest() -> BlockId {
    BlockId::Number(BlockNumberOrTag::Latest)
}

/// Ask for the hash of the latest block.
#[derive(Debug, PartialEq)]
pub struct FindLatest {
    pub calls: Vec<TransactionRequest>,
}

/// Ask for the execution environment of `target`.
#[derive(Debug, PartialEq)]
pub struct PrepareEnv {
    pub calls: Vec<TransactionRequest>,
    pub target: BlockId,
}

/// Ask for the block `target` itself.
#[derive(Debug, PartialEq)]
pub struct FetchBlock {
    pub calls: Vec<TransactionRequest>,
    pub target: BlockId,
}

/// Ask for the state behind `target`, for the environment to be changed, and for what precedes the
/// first transaction of a block.
#[derive(Debug, PartialEq)]
pub struct OpenState {
    pub target: BlockId,
    pub overrides: EnvOverrides,
    pub run: BundleRun,
}

/// What is known of a bundle that is being executed. `outputs` has the results of the calls in front
/// of the current one.
#[derive(Debug, PartialEq)]
pub struct BundleRun {
    pub block: BlockInfo,
    pub default_gas_limit: u64,
    pub calls: Vec<TransactionRequest>,
    pub outputs: Vec<SimulateTransactionAtResult>,
}

/// Ask for `call` to be made a transaction, with the default gas limit if it names none.
#[derive(Debug, PartialEq)]
pub struct Resolve {
    pub call: TransactionRequest,
    pub run: BundleRun,
}

/// Ask for the transaction to be executed.
#[derive(Debug, PartialEq)]
pub struct Execute {
    pub tx_hash: B256,
    pub run: BundleRun,
}

/// What the node is asked next, or the end.
#[derive(Debug, PartialEq)]
pub enum BundleStep<E> {
    FindLatest(FindLatest),
    PrepareEnv(PrepareEnv),
    FetchBlock(FetchBlock),
    OpenState(OpenState),
    Resolve(Resolve),
    Execute(Execute),
    Finished(Result<Vec<SimulateTransactionAtResult>, SimulationError<E>>),
}

/// What the results of a bundle hold.
pub open spec fn result_views(rs: Seq<SimulateTransactionAtResult>) -> Seq<ResultView> {
    rs.map_values(|r: SimulateTransactionAtResult| r@)
}

/// What the calls of a bundle hold.
pub open spec fn request_views(calls: Seq<TransactionRequest>) -> Seq<RequestView> {
    calls.map_values(|c: TransactionRequest| c@)
}

/// How the environment is changed: a bundle runs without the checks on its senders, and in a block
/// that has room for it.
pub open spec fn bundle_overrides(gas_limit: u64) -> EnvOverrides {
    EnvOverrides {
        disable_eip3607: true,
        disable_nonce_check: true,
        disable_base_fee: true,
        disable_block_gas_limit: true,
        gas_limit,
    }
}

/// Whether `t` is the step at which so many calls have these results: the next call is resolved, or
/// the results are handed out.
pub open spec fn stands_at<E>(
    t: BundleStep<E>,
    block: BlockInfo,
    default_gas_limit: u64,
    calls: Seq<RequestView>,
    outputs: Seq<ResultView>,
) -> bool {
    if outputs.len() < calls.len() {
        t matches BundleStep::Resolve(s) && {
            &&& s.call@ == calls[outputs.len() as int]
            &&& s.run.block == block
            &&& s.run.default_gas_limit == default_gas_limit
            &&& request_views(s.run.calls@) == calls
            &&& result_views(s.run.outputs@) == outputs
        }
    } else {
        t matches BundleStep::Finished(Ok(rs)) && result_views(rs@) == outputs
    }
}

fn go_on<E>(run: BundleRun) -> (t: BundleStep<E>)
    ensures
        stands_at(
            t,
            run.block,
            run.default_gas_limit,
            request_views(run.calls@),
            result_views(run.outputs@),
        ),
{
    if run.outputs.len() < run.calls.len() {
        let call = run.calls[run.outputs.len()].clone();
        BundleStep::Resolve(Resolve { call, run })
    } else {
        BundleStep::Finished(Ok(run.outputs))
    }
}

impl BundleRun {
    /// The run with one more result.
    fn with_output(self, output: SimulateTransactionAtResult) -> (r: BundleRun)
        ensures
            r.block == self.block,
            r.default_gas_limit == self.default_gas_limit,
            r.calls == self.calls,
            result_views(r.outputs@) == result_views(self.outputs@).push(output@),
    {
        let mut outputs = self.outputs;
        outputs.push(output);
        assert(result_views(outputs@) =~= result_views(self.outputs@).push(output@));
        BundleRun {
            block: self.block,
            default_gas_limit: self.default_gas_limit,
            calls: self.calls,
            outputs,
        }
    }
}

/// Whether call number `i` of a bundle is the first that is none, and why.
pub open spec fn first_fault(
    bundle: Seq<SimulationTxInput<TransactionRequest>>,
    i: int,
    e: ErrorView,
) -> bool {
    &&& 0 <= i < bundle.len()
    &&& transaction_request::candidate(bundle[i]) == Err::<RequestView, ErrorView>(e)
    &&& forall|j: int|
        0 <= j < i ==> transaction_request::candidate(#[trigger] bundle[j]) is Ok
}

/// Whether a bundle is refused with this error: that of its first call that is none.
pub open spec fn refused(bundle: Seq<SimulationTxInput<TransactionRequest>>, e: ErrorView) -> bool {
    exists|i: int| first_fault(bundle, i, e)
}

/// Whether these calls are what a bundle stands for.
pub open spec fn decoded(
    bundle: Seq<SimulationTxInput<TransactionRequest>>,
    calls: Seq<RequestView>,
) -> bool {
    &&& calls.len() == bundle.len()
    &&& forall|j: int|
        0 <= j < bundle.len() ==> transaction_request::candidate(#[trigger] bundle[j]) == Ok::<
            RequestView,
            ErrorView,
        >(calls[j])
}

/// The requests that the inputs of a bundle stand for, or the error of the first that stands for
/// none.
pub fn decode_bundle(bundle: Vec<SimulationTxInput<TransactionRequest>>) -> (r: Result<
    Vec<TransactionRequest>,
    ErrorObject,
>)
    ensures
        match r {
            Ok(calls) => decoded(bundle@, request_views(calls@)),
            Err(e) => refused(bundle@, e@),
        },
{
    let mut calls: Vec<TransactionRequest> = Vec::new();
    let ghost all = bundle@;
    for input in iter: bundle
        invariant
            iter.seq() == all,
            all == bundle@,
            calls@.len() == iter.index(),
            forall|j: int|
                0 <= j < iter.index() ==> transaction_request::candidate(#[trigger] all[j])
                    == Ok::<RequestView, ErrorView>(request_views(calls@)[j]),
    {
        let ghost i = iter.index();
        match decode_candidate_transaction(input) {
            Ok(call) => {
                let ghost before = request_views(calls@);
                calls.push(call);
                assert(request_views(calls@) =~= before.push(call@));
            },
            Err(e) => {
                assert(first_fault(bundle@, i, e@));
                assert(refused(bundle@, e@));
                return Err(e);
            },
        }
    }
    Ok(calls)
}

/// The endpoint, in front of a node's API.
#[derive(Debug, Clone)]
pub struct KeepersApiImpl<Eth> {
    eth_api: Eth,
}

impl<Eth> KeepersApiImpl<Eth> {
    /// The node's API.
    pub closed spec fn api(&self) -> Eth {
        self.eth_api
    }

    pub fn new(eth_api: Eth) -> (r: Self)
        ensures
            r.api() == eth_api,
    {
        Self { eth_api }
    }

    /// The node's API.
    pub fn eth_api(&self) -> (r: &Eth)
        ensures
            *r == self.api(),
    {
        &self.eth_api
    }

    /// Starts the simulation of a bundle.
    pub fn simulate_at_latest_state<E>(
        &self,
        bundle: Vec<SimulationTxInput<TransactionRequest>>,
    ) -> (t: BundleStep<E>)
        ensures
            begins_with(bundle@, t),
    {
        match decode_bundle(bundle) {
            Ok(calls) => BundleStep::FindLatest(FindLatest { calls }),
            Err(e) => BundleStep::Finished(Err(SimulationError::Rejected(e))),
        }
    }
}

/// Whether the simulation of a bundle starts with this step.
pub open spec fn begins_with<E>(
    bundle: Seq<SimulationTxInput<TransactionRequest>>,
    t: BundleStep<E>,
) -> bool {
    match t {
        BundleStep::FindLatest(s) => decoded(bundle, request_views(s.calls@)),
        BundleStep::Finished(Err(SimulationError::Rejected(e))) => refused(bundle, e@),
        _ => false,
    }
}

impl FindLatest {
    /// The step that this one leads to.
    pub open spec fn leads_to<E>(self, found: Result<Option<B256>, E>, t: BundleStep<E>) -> bool {
        match found {
            Ok(Some(hash)) => t == BundleStep::<E>::PrepareEnv(
                PrepareEnv { calls: self.calls, target: BlockId::of_hash(hash) },
            ),
            _ => t == BundleStep::<E>::Finished(Err(SimulationError::HeaderNotFound(latest()))),
        }
    }

    /// Goes on with the hash. A block that cannot be looked up is as good as none.
    pub fn resume<E>(self, found: Result<Option<B256>, E>) -> (t: BundleStep<E>)
        ensures
            self.leads_to(found, t),
    {
        match found {
            Ok(Some(hash)) => BundleStep::PrepareEnv(
                PrepareEnv { calls: self.calls, target: BlockId::from_hash(hash) },
            ),
            _ => BundleStep::Finished(
                Err(SimulationError::HeaderNotFound(BlockId::Number(BlockNumberOrTag::Latest))),
            ),
        }
    }
}

impl PrepareEnv {
    /// The step that this one leads to.
    pub open spec fn leads_to<E>(self, ready: Result<(), E>, t: BundleStep<E>) -> bool {
        match ready {
            Ok(()) => t == BundleStep::<E>::FetchBlock(
                FetchBlock { calls: self.calls, target: self.target },
            ),
            Err(e) => t == BundleStep::<E>::Finished(Err(SimulationError::Node(e))),
        }
    }

    /// Goes on once the environment is there.
    pub fn resume<E>(self, ready: Result<(), E>) -> (t: BundleStep<E>)
        ensures
            self.leads_to(ready, t),
    {
        match ready {
            Ok(()) => BundleStep::FetchBlock(
                FetchBlock { calls: self.calls, target: self.target },
            ),
            Err(e) => BundleStep::Finished(Err(SimulationError::Node(e))),
        }
    }
}

impl FetchBlock {
    /// The step that this one leads to.
    pub open spec fn leads_to<E>(
        self,
        found: Result<Option<BlockInfo>, E>,
        t: BundleStep<E>,
    ) -> bool {
        match found {
            Err(e) => t == BundleStep::<E>::Finished(Err(SimulationError::Node(e))),
            Ok(None) => t == BundleStep::<E>::Finished(
                Err(SimulationError::HeaderNotFound(latest())),
            ),
            Ok(Some(block)) => t matches BundleStep::OpenState(s) && {
                let limit = bundle_gas_limit(block.gas_limit, self.calls@);
                &&& s.target == self.target
                &&& s.overrides == bundle_overrides(limit)
                &&& s.run.block == block
                &&& s.run.default_gas_limit == even_share(limit, self.calls@)
                &&& s.run.calls == self.calls
                &&& s.run.outputs@.len() == 0
            },
        }
    }

    /// Goes on with the block.
    pub fn resume<E>(self, found: Result<Option<BlockInfo>, E>) -> (t: BundleStep<E>)
        ensures
            self.leads_to(found, t),
    {
        match found {
            Err(e) => BundleStep::Finished(Err(SimulationError::Node(e))),
            Ok(None) => BundleStep::Finished(
                Err(SimulationError::HeaderNotFound(BlockId::Number(BlockNumberOrTag::Latest))),
            ),
            Ok(Some(block)) => {
                let limit = lenient_block_gas_limit(block.gas_limit, self.calls.as_slice());
                let default_gas_limit = default_gas_limit(limit, self.calls.as_slice());
                BundleStep::OpenState(
                    OpenState {
                        target: self.target,
                        overrides: EnvOverrides {
                            disable_eip3607: true,
                            disable_nonce_check: true,
                            disable_base_fee: true,
                            disable_block_gas_limit: true,
                            gas_limit: limit,
                        },
                        run: BundleRun {
                            block,
                            default_gas_limit,
                            calls: self.calls,
                            outputs: Vec::new(),
                        },
                    },
                )
            },
        }
    }
}

impl OpenState {
    /// The step that this one leads to.
    pub open spec fn leads_to<E>(self, opened: Result<(), E>, t: BundleStep<E>) -> bool {
        match opened {
            Ok(()) => stands_at(
                t,
                self.run.block,
                self.run.default_gas_limit,
                request_views(self.run.calls@),
                result_views(self.run.outputs@),
            ),
            Err(e) => t == BundleStep::<E>::Finished(Err(SimulationError::Node(e))),
        }
    }

    /// Goes on once the state is there.
    pub fn resume<E>(self, opened: Result<(), E>) -> (t: BundleStep<E>)
        ensures
            self.leads_to(opened, t),
    {
        match opened {
            Ok(()) => go_on(self.run),
            Err(e) => BundleStep::Finished(Err(SimulationError::Node(e))),
        }
    }
}

impl Resolve {
    /// The step that this one leads to: a call that is no transaction has a result all the same, and
    /// the next one follows.
    pub open spec fn leads_to<E>(self, resolved: Result<B256, String>, t: BundleStep<E>) -> bool {
        match resolved {
            Ok(tx_hash) => t == BundleStep::<E>::Execute(Execute { tx_hash, run: self.run }),
            Err(message) => stands_at(
                t,
                self.run.block,
                self.run.default_gas_limit,
                request_views(self.run.calls@),
                result_views(self.run.outputs@).push(simulation::halted_view(message@)),
            ),
        }
    }

    /// Goes on with the hash of the transaction, or with why there is none.
    pub fn resume<E>(self, resolved: Result<B256, String>) -> (t: BundleStep<E>)
        ensures
            self.leads_to(resolved, t),
    {
        match resolved {
            Ok(tx_hash) => BundleStep::Execute(Execute { tx_hash, run: self.run }),
            Err(message) => go_on(self.run.with_output(halted(message))),
        }
    }
}

/// Where call number `index` of a bundle stands.
pub open spec fn call_position(block: BlockInfo, index: nat, tx_hash: B256) -> Position {
    Position {
        tx_hash,
        tx_index: index as u64,
        block_number: block.number,
        block_timestamp: block.timestamp,
    }
}

impl Execute {
    /// The step that this one leads to.
    pub open spec fn leads_to<E>(
        self,
        outcome: Result<Option<ExecutionResult>, String>,
        t: BundleStep<E>,
    ) -> bool {
        stands_at(
            t,
            self.run.block,
            self.run.default_gas_limit,
            request_views(self.run.calls@),
            result_views(self.run.outputs@).push(
                simulation::executed_view(
                    outcome,
                    "missing execution result for bundle transaction"@,
                    call_position(self.run.block, self.run.outputs@.len(), self.tx_hash),
                ),
            ),
        )
    }

    /// Goes on with the result of the execution.
    pub fn resume<E>(self, outcome: Result<Option<ExecutionResult>, String>) -> (t: BundleStep<E>)
        ensures
            self.leads_to(outcome, t),
    {
        let at = Position {
            tx_hash: self.tx_hash,
            tx_index: self.run.outputs.len() as u64,
            block_number: self.run.block.number,
            block_timestamp: self.run.block.timestamp,
        };
        let output = executed(outcome, "missing execution result for bundle transaction", &at);
        go_on(self.run.with_output(output))
    }
}

// ---- a whole run ----

/// All that the node replies in a run. The replies that a run does not come to are never looked at.
pub struct BundleReplies<E> {
    pub hash: Result<Option<B256>, E>,
    pub env: Result<(), E>,
    pub block: Result<Option<BlockInfo>, E>,
    pub opened: Result<(), E>,
    pub resolved: spec_fn(int) -> Result<B256, String>,
    pub executed: spec_fn(int) -> Result<Option<ExecutionResult>, String>,
}

/// Whether `t` follows on `s` when the node replies so.
pub open spec fn follows<E>(s: BundleStep<E>, a: BundleReplies<E>, t: BundleStep<E>) -> bool {
    match s {
        BundleStep::FindLatest(x) => x.leads_to(a.hash, t),
        BundleStep::PrepareEnv(x) => x.leads_to(a.env, t),
        BundleStep::FetchBlock(x) => x.leads_to(a.block, t),
        BundleStep::OpenState(x) => x.leads_to(a.opened, t),
        BundleStep::Resolve(x) => x.leads_to((a.resolved)(x.run.outputs@.len() as int), t),
        BundleStep::Execute(x) => x.leads_to((a.executed)(x.run.outputs@.len() as int), t),
        BundleStep::Finished(_) => t == s,
    }
}

/// The result of call number `i`.
pub open spec fn call_result<E>(a: BundleReplies<E>, block: BlockInfo, i: int) -> ResultView {
    match (a.resolved)(i) {
        Err(message) => simulation::halted_view(message@),
        Ok(tx_hash) => simulation::executed_view(
            (a.executed)(i),
            "missing execution result for bundle transaction"@,
            call_position(block, i as nat, tx_hash),
        ),
    }
}

/// Whether these are the results of the first calls.
pub open spec fn call_results<E>(
    a: BundleReplies<E>,
    block: BlockInfo,
    outputs: Seq<ResultView>,
) -> bool {
    forall|i: int|
        0 <= i < outputs.len() ==> #[trigger] outputs[i] == call_result(a, block, i)
}

/// Whether a run with these replies ends like this, for a bundle of `count` calls.
pub open spec fn ends_in<E>(
    count: nat,
    a: BundleReplies<E>,
    r: Result<Vec<SimulateTransactionAtResult>, SimulationError<E>>,
) -> bool {
    let no_block = Err::<Vec<SimulateTransactionAtResult>, SimulationError<E>>(
        SimulationError::HeaderNotFound(latest()),
    );
    if !(a.hash matches Ok(Some(_))) {
        r == no_block
    } else if let Err(e) = a.env {
        r == Err::<Vec<SimulateTransactionAtResult>, SimulationError<E>>(SimulationError::Node(e))
    } else {
        match a.block {
            Err(e) => r == Err::<Vec<SimulateTransactionAtResult>, SimulationError<E>>(
                SimulationError::Node(e),
            ),
            Ok(None) => r == no_block,
            Ok(Some(block)) => match a.opened {
                Err(e) => r == Err::<Vec<SimulateTransactionAtResult>, SimulationError<E>>(
                    SimulationError::Node(e),
                ),
                Ok(()) => r matches Ok(rs) && rs@.len() == count && call_results(
                    a,
                    block,
                    result_views(rs@),
                ),
            },
        }
    }
}

/// Whether a bundle of these calls is being executed and has come to this point.
pub open spec fn under_way<E>(
    calls: Seq<RequestView>,
    a: BundleReplies<E>,
    run: BundleRun,
) -> bool {
    &&& a.hash matches Ok(Some(_))
    &&& a.env is Ok
    &&& a.block == Ok::<Option<BlockInfo>, E>(Some(run.block))
    &&& request_views(run.calls@) == calls
    &&& run.outputs@.len() <= calls.len()
    &&& call_results(a, run.block, result_views(run.outputs@))
}

/// Whether a run with these replies can stand at this step.
pub open spec fn on_the_way<E>(
    calls: Seq<RequestView>,
    a: BundleReplies<E>,
    s: BundleStep<E>,
) -> bool {
    match s {
        BundleStep::FindLatest(x) => request_views(x.calls@) == calls,
        BundleStep::PrepareEnv(x) => request_views(x.calls@) == calls && (a.hash matches Ok(
            Some(_),
        )),
        BundleStep::FetchBlock(x) => request_views(x.calls@) == calls && (a.hash matches Ok(
            Some(_),
        )) && a.env is Ok,
        BundleStep::OpenState(x) => under_way(calls, a, x.run) && x.run.outputs@.len() == 0,
        BundleStep::Resolve(x) => {
            &&& under_way(calls, a, x.run)
            &&& a.opened is Ok
            &&& x.run.outputs@.len() < calls.len()
            &&& x.call@ == calls[x.run.outputs@.len() as int]
        },
        BundleStep::Execute(x) => {
            &&& under_way(calls, a, x.run)
            &&& a.opened is Ok
            &&& x.run.outputs@.len() < calls.len()
            &&& (a.resolved)(x.run.outputs@.len() as int) == Ok::<B256, String>(x.tx_hash)
        },
        BundleStep::Finished(r) => ends_in(calls.len(), a, r),
    }
}

proof fn lemma_next_call<E>(
    calls: Seq<RequestView>,
    a: BundleReplies<E>,
    block: BlockInfo,
    default_gas_limit: u64,
    outputs: Seq<ResultView>,
    t: BundleStep<E>,
)
    requires
        a.hash matches Ok(Some(_)),
        a.env is Ok,
        a.block == Ok::<Option<BlockInfo>, E>(Some(block)),
        a.opened is Ok,
        outputs.len() <= calls.len(),
        call_results(a, block, outputs),
        stands_at(t, block, default_gas_limit, calls, outputs),
    ensures
        on_the_way(calls, a, t),
{
    match t {
        BundleStep::Resolve(s) => {
            assert(s.run.outputs@.len() == result_views(s.run.outputs@).len());
        },
        BundleStep::Finished(Ok(rs)) => {
            assert(rs@.len() == result_views(rs@).len());
        },
        _ => {},
    }
}

/// A run that stands at one step stands at the next.
pub proof fn law_step<E>(
    calls: Seq<RequestView>,
    a: BundleReplies<E>,
    s: BundleStep<E>,
    t: BundleStep<E>,
)
    requires
        on_the_way(calls, a, s),
        follows(s, a, t),
    ensures
        on_the_way(calls, a, t),
{
    match s {
        BundleStep::OpenState(x) => {
            if a.opened is Ok {
                let outputs = result_views(x.run.outputs@);
                assert(outputs.len() == x.run.outputs@.len());
                lemma_next_call(calls, a, x.run.block, x.run.default_gas_limit, outputs, t);
            }
        },
        BundleStep::Resolve(x) => {
            let outputs = result_views(x.run.outputs@);
            let i = x.run.outputs@.len() as int;
            assert(outputs.len() == i);
            if let Err(message) = (a.resolved)(i) {
                let more = outputs.push(simulation::halted_view(message@));
                assert(more[i] == call_result(a, x.run.block, i));
                assert(call_results(a, x.run.block, more));
                lemma_next_call(calls, a, x.run.block, x.run.default_gas_limit, more, t);
            }
        },
        BundleStep::Execute(x) => {
            let outputs = result_views(x.run.outputs@);
            let i = x.run.outputs@.len() as int;
            assert(outputs.len() == i);
            let more = outputs.push(call_result(a, x.run.block, i));
            assert(call_results(a, x.run.block, more));
            lemma_next_call(calls, a, x.run.block, x.run.default_gas_limit, more, t);
        },
        _ => {},
    }
}

/// A bundle ends as the node's replies have it, whatever they are: with an error for a latest block
/// that is not there or a failure of the node, and otherwise with one result for each call, in their
/// order, whether it could be executed or not.
pub proof fn law_run<E>(calls: Seq<RequestView>, a: BundleReplies<E>, steps: Seq<BundleStep<E>>)
    requires
        steps.len() > 0,
        steps[0] matches BundleStep::FindLatest(s) && request_views(s.calls@) == calls,
        forall|i: int|
            0 <= i < steps.len() - 1 ==> follows(#[trigger] steps[i], a, steps[i + 1]),
    ensures
        on_the_way(calls, a, steps.last()),
        steps.last() matches BundleStep::Finished(r) ==> ends_in(calls.len(), a, r),
    decreases steps.len(),
{
    if steps.len() == 1 {
        assert(on_the_way(calls, a, steps[0]));
    } else {
        let before = steps.drop_last();
        assert forall|i: int| 0 <= i < before.len() - 1 implies follows(
            #[trigger] before[i],
            a,
            before[i + 1],
        ) by {
            assert(before[i] == steps[i] && before[i + 1] == steps[i + 1]);
        }
        law_run(calls, a, before);
        assert(before.last() == steps[steps.len() - 2]);
        law_step(calls, a, steps[steps.len() - 2], steps.last());
    }
}

/// How many steps may still come before the end.
pub open spec fn steps_left<E>(count: int, s: BundleStep<E>) -> int {
    match s {
        BundleStep::FindLatest(_) => 2 * count + 4,
        BundleStep::PrepareEnv(_) => 2 * count + 3,
        BundleStep::FetchBlock(_) => 2 * count + 2,
        BundleStep::OpenState(_) => 2 * count + 1,
        BundleStep::Resolve(x) => 2 * (count - x.run.outputs@.len()),
        BundleStep::Execute(x) => 2 * (count - x.run.outputs@.len()) - 1,
        BundleStep::Finished(_) => 0,
    }
}

/// Every step brings the end nearer: the node is asked for two things a call, and four more, at
/// most.
pub proof fn law_run_ends<E>(
    calls: Seq<RequestView>,
    a: BundleReplies<E>,
    s: BundleStep<E>,
    t: BundleStep<E>,
)
    requires
        on_the_way(calls, a, s),
        follows(s, a, t),
        !(s is Finished),
    ensures
        0 <= steps_left(calls.len() as int, t) < steps_left(calls.len() as int, s),
        steps_left(calls.len() as int, s) <= 2 * calls.len() + 4,
{
    law_step(calls, a, s, t);
    if let BundleStep::Resolve(x) = t {
        assert(x.run.outputs@.len() == result_views(x.run.outputs@).len());
    }
    match s {
        BundleStep::Resolve(x) => {
            assert(x.run.outputs@.len() == result_views(x.run.outputs@).len());
        },
        BundleStep::Execute(x) => {
            assert(x.run.outputs@.len() == result_views(x.run.outputs@).len());
        },
        _ => {},
    }
}

// ---- what a run asks, and what it answers ----

/// Whether the gas of a run is shared out: `limit` is the gas limit of the block that the bundle runs
/// in, and `share` what a call gets that names none.
spec fn shared_out(block_gas_limit: u64, calls: Seq<TransactionRequest>, limit: int, share: int) -> bool {
    let named = if named_gas(calls) <= u64::MAX {
        named_gas(calls) as int
    } else {
        u64::MAX as int
    };
    &&& limit == (if named > block_gas_limit {
        named
    } else {
        block_gas_limit as int
    })
    &&& unnamed_count(calls) > 0 ==> share == (limit - named) / unnamed_count(calls) as int
    &&& unnamed_count(calls) == 0 ==> share == 0
}

proof fn lemma_shared_out(block_gas_limit: u64, calls: Seq<TransactionRequest>)
    ensures
        ({
            let limit = bundle_gas_limit(block_gas_limit, calls);
            shared_out(block_gas_limit, calls, limit as int, even_share(limit, calls) as int)
        }),
{
    let limit = bundle_gas_limit(block_gas_limit, calls);
    law_share_is_largest(limit, calls);
    let unnamed = unnamed_count(calls);
    if unnamed > 0 {
        assert(0int / unnamed as int == 0) by (nonlinear_arith)
            requires
                unnamed > 0,
        ;
    }
}

/// What else the steps of a run ask for.
spec fn asks_rightly<E>(
    calls: Seq<TransactionRequest>,
    a: BundleReplies<E>,
    s: BundleStep<E>,
) -> bool {
    match s {
        BundleStep::FindLatest(x) => x.calls@ == calls,
        BundleStep::PrepareEnv(x) => x.calls@ == calls && x.target == (BlockId::Hash {
            block_hash: a.hash->Ok_0->0,
            require_canonical: None,
        }),
        BundleStep::FetchBlock(x) => x.calls@ == calls && x.target == (BlockId::Hash {
            block_hash: a.hash->Ok_0->0,
            require_canonical: None,
        }),
        BundleStep::OpenState(x) => {
            &&& x.target == (BlockId::Hash {
                block_hash: a.hash->Ok_0->0,
                require_canonical: None,
            })
            &&& x.overrides.disable_eip3607
            &&& x.overrides.disable_nonce_check
            &&& x.overrides.disable_base_fee
            &&& x.overrides.disable_block_gas_limit
            &&& shared_out(
                x.run.block.gas_limit,
                calls,
                x.overrides.gas_limit as int,
                x.run.default_gas_limit as int,
            )
        },
        BundleStep::Resolve(x) => exists|limit: int|
            shared_out(x.run.block.gas_limit, calls, limit, x.run.default_gas_limit as int),
        BundleStep::Execute(x) => exists|limit: int|
            shared_out(x.run.block.gas_limit, calls, limit, x.run.default_gas_limit as int),
        BundleStep::Finished(_) => true,
    }
}

proof fn lemma_run_to<E>(
    calls: Seq<TransactionRequest>,
    a: BundleReplies<E>,
    steps: Seq<BundleStep<E>>,
    i: int,
)
    requires
        steps.len() > 0,
        steps[0] matches BundleStep::FindLatest(s) && s.calls@ == calls,
        forall|k: int|
            0 <= k < steps.len() - 1 ==> follows(#[trigger] steps[k], a, steps[k + 1]),
        0 <= i < steps.len(),
    ensures
        on_the_way(request_views(calls), a, steps[i]),
        asks_rightly(calls, a, steps[i]),
    decreases i,
{
    if i > 0 {
        lemma_run_to(calls, a, steps, i - 1);
        assert(follows(steps[i - 1], a, steps[i - 1 + 1]));
        law_step(request_views(calls), a, steps[i - 1], steps[i]);
        match steps[i - 1] {
            BundleStep::FetchBlock(x) => {
                if let Ok(Some(block)) = a.block {
                    lemma_shared_out(block.gas_limit, calls);
                }
            },
            BundleStep::OpenState(x) => {
                assert(shared_out(
                    x.run.block.gas_limit,
                    calls,
                    x.overrides.gas_limit as int,
                    x.run.default_gas_limit as int,
                ));
            },
            _ => {},
        }
    }
}

/// In every run, at each step that asks for a call to be made a transaction, the default gas limit is
/// an even share: what the calls that name a gas limit leave of the block's, or of all that they name
/// if that is more, divided by the number of calls that name none.
pub proof fn law_every_call_gets_its_share<E>(
    calls: Seq<TransactionRequest>,
    a: BundleReplies<E>,
    steps: Seq<BundleStep<E>>,
    i: int,
)
    requires
        steps.len() > 0,
        steps[0] matches BundleStep::FindLatest(s) && s.calls@ == calls,
        forall|k: int|
            0 <= k < steps.len() - 1 ==> follows(#[trigger] steps[k], a, steps[k + 1]),
        0 <= i < steps.len(),
        steps[i] is Resolve,
    ensures
        ({
            let share = (steps[i]->Resolve_0).run.default_gas_limit;
            let named = if named_gas(calls) <= u64::MAX {
                named_gas(calls) as int
            } else {
                u64::MAX as int
            };
            &&& a.block matches Ok(Some(block)) && {
                let limit = if named > block.gas_limit {
                    named
                } else {
                    block.gas_limit as int
                };
                unnamed_count(calls) > 0 ==> share == (limit - named) / unnamed_count(calls) as int
            }
            &&& unnamed_count(calls) == 0 ==> share == 0
        }),
{
    lemma_run_to(calls, a, steps, i);
}

/// In every run all calls are made transactions with the same default gas limit.
pub proof fn law_shares_are_equal<E>(
    calls: Seq<TransactionRequest>,
    a: BundleReplies<E>,
    steps: Seq<BundleStep<E>>,
    i: int,
    j: int,
)
    requires
        steps.len() > 0,
        steps[0] matches BundleStep::FindLatest(s) && s.calls@ == calls,
        forall|k: int|
            0 <= k < steps.len() - 1 ==> follows(#[trigger] steps[k], a, steps[k + 1]),
        0 <= i < steps.len(),
        0 <= j < steps.len(),
        steps[i] is Resolve,
        steps[j] is Resolve,
    ensures
        (steps[i]->Resolve_0).run.default_gas_limit == (steps[j]->Resolve_0).run.default_gas_limit,
{
    law_every_call_gets_its_share(calls, a, steps, i);
    law_every_call_gets_its_share(calls, a, steps, j);
    lemma_run_to(calls, a, steps, i);
    lemma_run_to(calls, a, steps, j);
}

/// In every run the node is asked for the block whose hash it gave as that of the latest. The bundle
/// runs on the state behind that block, without the checks on its senders, the base fee and the gas
/// of the block, and in a block with the larger of two gas limits: that of the latest block, and the
/// gas that the calls name.
pub proof fn law_bundle_runs_on_the_latest<E>(
    calls: Seq<TransactionRequest>,
    a: BundleReplies<E>,
    steps: Seq<BundleStep<E>>,
    i: int,
)
    requires
        steps.len() > 0,
        steps[0] matches BundleStep::FindLatest(s) && s.calls@ == calls,
        forall|k: int|
            0 <= k < steps.len() - 1 ==> follows(#[trigger] steps[k], a, steps[k + 1]),
        0 <= i < steps.len(),
    ensures
        steps[i] matches BundleStep::PrepareEnv(x) ==> (a.hash matches Ok(Some(hash)) && x.target
            == (BlockId::Hash { block_hash: hash, require_canonical: None })),
        steps[i] matches BundleStep::FetchBlock(x) ==> (a.hash matches Ok(Some(hash)) && x.target
            == (BlockId::Hash { block_hash: hash, require_canonical: None })),
        steps[i] matches BundleStep::OpenState(x) ==> {
            let named = if named_gas(calls) <= u64::MAX {
                named_gas(calls) as int
            } else {
                u64::MAX as int
            };
            &&& a.hash matches Ok(Some(hash)) && x.target == (BlockId::Hash {
                block_hash: hash,
                require_canonical: None,
            })
            &&& x.overrides.disable_eip3607
            &&& x.overrides.disable_nonce_check
            &&& x.overrides.disable_base_fee
            &&& x.overrides.disable_block_gas_limit
            &&& a.block matches Ok(Some(block)) && x.overrides.gas_limit == (if named
                > block.gas_limit {
                named
            } else {
                block.gas_limit as int
            })
        },
{
    lemma_run_to(calls, a, steps, i);
}

/// In every run the calls are made transactions in their order, from the first on and each once: the
/// one that is asked for is the first without a result. The transaction that is executed is the one
/// that the node made of it.
pub proof fn law_calls_come_in_order<E>(
    calls: Seq<TransactionRequest>,
    a: BundleReplies<E>,
    steps: Seq<BundleStep<E>>,
    i: int,
)
    requires
        steps.len() > 0,
        steps[0] matches BundleStep::FindLatest(s) && s.calls@ == calls,
        forall|k: int|
            0 <= k < steps.len() - 1 ==> follows(#[trigger] steps[k], a, steps[k + 1]),
        0 <= i < steps.len(),
    ensures
        steps[i] matches BundleStep::Resolve(x) ==> x.run.outputs@.len() < calls.len() && x.call@
            == calls[x.run.outputs@.len() as int]@,
        steps[i] matches BundleStep::Execute(x) ==> x.run.outputs@.len() < calls.len() && (
        a.resolved)(x.run.outputs@.len() as int) == Ok::<B256, String>(x.tx_hash),
        i > 0 && steps[i - 1] is OpenState && steps[i] is Resolve ==> (
        steps[i]->Resolve_0).run.outputs@.len() == 0,
        i > 0 && steps[i - 1] is Resolve && steps[i] is Resolve ==> (
        steps[i]->Resolve_0).run.outputs@.len() == (steps[i - 1]->Resolve_0).run.outputs@.len() + 1,
        i > 0 && steps[i - 1] is Resolve && steps[i] is Execute ==> (
        steps[i]->Execute_0).run.outputs@.len() == (steps[i - 1]->Resolve_0).run.outputs@.len(),
        i > 0 && steps[i - 1] is Execute && steps[i] is Resolve ==> (
        steps[i]->Resolve_0).run.outputs@.len() == (steps[i - 1]->Execute_0).run.outputs@.len() + 1,
{
    lemma_run_to(calls, a, steps, i);
    if i > 0 {
        lemma_run_to(calls, a, steps, i - 1);
        assert(follows(steps[i - 1], a, steps[i - 1 + 1]));
        if let BundleStep::Resolve(x) = steps[i] {
            assert(x.run.outputs@.len() == result_views(x.run.outputs@).len());
            match steps[i - 1] {
                BundleStep::OpenState(y) => {
                    assert(y.run.outputs@.len() == result_views(y.run.outputs@).len());
                },
                BundleStep::Resolve(y) => {
                    assert(y.run.outputs@.len() == result_views(y.run.outputs@).len());
                },
                BundleStep::Execute(y) => {
                    assert(y.run.outputs@.len() == result_views(y.run.outputs@).len());
                },
                _ => {},
            }
        }
    }
}

proof fn lemma_result_of<E>(
    calls: Seq<TransactionRequest>,
    a: BundleReplies<E>,
    steps: Seq<BundleStep<E>>,
    rs: Vec<SimulateTransactionAtResult>,
    i: int,
)
    requires
        steps.len() > 0,
        steps[0] matches BundleStep::FindLatest(s) && s.calls@ == calls,
        forall|k: int|
            0 <= k < steps.len() - 1 ==> follows(#[trigger] steps[k], a, steps[k + 1]),
        steps.last() == BundleStep::<E>::Finished(Ok(rs)),
        0 <= i < calls.len(),
    ensures
        rs@.len() == calls.len(),
        a.block matches Ok(Some(block)) && rs@[i]@ == call_result(a, block, i),
{
    lemma_run_to(calls, a, steps, steps.len() - 1);
    let block = a.block->Ok_0->0;
    let views = result_views(rs@);
    assert(views.len() == rs@.len());
    assert(views[i] == call_result(a, block, i));
    assert(views[i] == rs@[i]@);
}

/// A bundle that is answered has one result for each call, in their order. Whatever way a call ended,
/// its result reports the gas that its execution used.
pub proof fn law_final_gas<E>(
    calls: Seq<TransactionRequest>,
    a: BundleReplies<E>,
    steps: Seq<BundleStep<E>>,
    rs: Vec<SimulateTransactionAtResult>,
    i: int,
)
    requires
        steps.len() > 0,
        steps[0] matches BundleStep::FindLatest(s) && s.calls@ == calls,
        forall|k: int|
            0 <= k < steps.len() - 1 ==> follows(#[trigger] steps[k], a, steps[k + 1]),
        steps.last() == BundleStep::<E>::Finished(Ok(rs)),
        0 <= i < calls.len(),
        (a.resolved)(i) is Ok,
    ensures
        rs@.len() == calls.len(),
        (a.executed)(i) matches Ok(Some(ExecutionResult::Success { gas_used, .. })) ==> (
        rs@[i]).gas_used@ == gas_used,
        (a.executed)(i) matches Ok(Some(ExecutionResult::Revert { gas_used, .. })) ==> (
        rs@[i]).gas_used@ == gas_used,
        (a.executed)(i) matches Ok(Some(ExecutionResult::Halt { gas_used, .. })) ==> (
        rs@[i]).gas_used@ == gas_used,
{
    lemma_result_of(calls, a, steps, rs, i);
    let at = call_position(a.block->Ok_0->0, i as nat, (a.resolved)(i)->Ok_0);
    if let Ok(Some(result)) = (a.executed)(i) {
        simulation::law_gas_is_reported(result, at, rs@[i]);
    }
}

/// Every log of a call that succeeded carries the place of the call in the bundle, the hash of the
/// transaction and the number and time of the latest block; the logs are those that the execution
/// left, in order.
pub proof fn law_final_logs<E>(
    calls: Seq<TransactionRequest>,
    a: BundleReplies<E>,
    steps: Seq<BundleStep<E>>,
    rs: Vec<SimulateTransactionAtResult>,
    i: int,
    output: Vec<u8>,
    gas_used: u64,
    logs: Vec<LogEntry>,
)
    requires
        steps.len() > 0,
        steps[0] matches BundleStep::FindLatest(s) && s.calls@ == calls,
        forall|k: int|
            0 <= k < steps.len() - 1 ==> follows(#[trigger] steps[k], a, steps[k + 1]),
        steps.last() == BundleStep::<E>::Finished(Ok(rs)),
        0 <= i < calls.len(),
        i <= u64::MAX,
        (a.resolved)(i) is Ok,
        (a.executed)(i) == Ok::<Option<ExecutionResult>, String>(
            Some(ExecutionResult::Success { output, gas_used, logs }),
        ),
    ensures
        (rs@[i]).status == SimulateTransactionAtStatus::Success,
        (rs@[i]).gas_used@ == gas_used,
        (rs@[i]).return_data@ == output@,
        (rs@[i]).error is None,
        (rs@[i]).logs@.len() == logs@.len(),
        a.block matches Ok(Some(block)) && forall|k: int|
            0 <= k < logs@.len() ==> {
                let log = #[trigger] (rs@[i]).logs@[k];
                &&& log.inner == logs@[k]
                &&& log.transaction_index matches Some(index) && index == i
                &&& log.transaction_hash == Some((a.resolved)(i)->Ok_0)
                &&& log.block_number == Some(block.number)
                &&& log.block_timestamp == Some(block.timestamp)
                &&& log.block_hash is None
                &&& log.log_index is None
                &&& !log.removed
            },
{
    lemma_result_of(calls, a, steps, rs, i);
    let at = call_position(a.block->Ok_0->0, i as nat, (a.resolved)(i)->Ok_0);
    simulation::law_success_is_reported(output, gas_used, logs, at, rs@[i]);
}

/// A call that failed has a result all the same, and does not keep the others from theirs: the output
/// and the message of a revert, the message of a halt, and the node's words where the call was never
/// executed to an end.
pub proof fn law_final_failure<E>(
    calls: Seq<TransactionRequest>,
    a: BundleReplies<E>,
    steps: Seq<BundleStep<E>>,
    rs: Vec<SimulateTransactionAtResult>,
    i: int,
)
    requires
        steps.len() > 0,
        steps[0] matches BundleStep::FindLatest(s) && s.calls@ == calls,
        forall|k: int|
            0 <= k < steps.len() - 1 ==> follows(#[trigger] steps[k], a, steps[k + 1]),
        steps.last() == BundleStep::<E>::Finished(Ok(rs)),
        0 <= i < calls.len(),
    ensures
        rs@.len() == calls.len(),
        (a.resolved)(i) matches Err(message) ==> {
            let r = rs@[i];
            &&& r.status == SimulateTransactionAtStatus::Halt
            &&& r.gas_used@ == 0
            &&& r.return_data@.len() == 0
            &&& r.logs@.len() == 0
            &&& r.error matches Some(e) && e@ == message@
        },
        (a.resolved)(i) is Ok ==> ((a.executed)(i) matches Err(message) ==> {
            let r = rs@[i];
            &&& r.status == SimulateTransactionAtStatus::Halt
            &&& r.gas_used@ == 0
            &&& r.return_data@.len() == 0
            &&& r.logs@.len() == 0
            &&& r.error matches Some(e) && e@ == message@
        }),
        (a.resolved)(i) is Ok ==> ((a.executed)(i) matches Ok(None) ==> {
            let r = rs@[i];
            &&& r.status == SimulateTransactionAtStatus::Halt
            &&& r.gas_used@ == 0
            &&& r.return_data@.len() == 0
            &&& r.logs@.len() == 0
            &&& r.error matches Some(e) && e@ == "missing execution result for bundle transaction"@
        }),
        (a.resolved)(i) is Ok ==> ((a.executed)(i) matches Ok(
            Some(ExecutionResult::Revert { output, gas_used, message }),
        ) ==> {
            let r = rs@[i];
            &&& r.status == SimulateTransactionAtStatus::Revert
            &&& r.gas_used@ == gas_used
            &&& r.return_data@ == output@
            &&& r.logs@.len() == 0
            &&& r.error is Some
            &&& forall|rest: Seq<char>|
                message@ == #[trigger] ("execution reverted: "@ + rest) ==> r.error->0@ == rest
            &&& (forall|rest: Seq<char>| message@ != #[trigger] ("execution reverted: "@ + rest))
                ==> r.error->0@ == message@
        }),
        (a.resolved)(i) is Ok ==> ((a.executed)(i) matches Ok(
            Some(ExecutionResult::Halt { gas_used, message }),
        ) ==> {
            let r = rs@[i];
            &&& r.status == SimulateTransactionAtStatus::Halt
            &&& r.gas_used@ == gas_used
            &&& r.return_data@.len() == 0
            &&& r.logs@.len() == 0
            &&& r.error matches Some(e) && e@ == message@
        }),
{
    lemma_result_of(calls, a, steps, rs, i);
    let r = rs@[i];
    match (a.resolved)(i) {
        Err(message) => {
            simulation::law_never_executed(message@, r);
        },
        Ok(tx_hash) => {
            let at = call_position(a.block->Ok_0->0, i as nat, tx_hash);
            match (a.executed)(i) {
                Err(message) => {
                    simulation::law_never_executed(message@, r);
                },
                Ok(None) => {
                    simulation::law_never_executed(
                        "missing execution result for bundle transaction"@,
                        r,
                    );
                },
                Ok(Some(ExecutionResult::Revert { output, gas_used, message })) => {
                    simulation::law_revert_is_reported(output, gas_used, message, at, r);
                },
                Ok(Some(ExecutionResult::Halt { gas_used, message })) => {
                    simulation::law_halt_is_reported(gas_used, message, at, r);
                },
                _ => {},
            }
        },
    }
}

/// A bundle is answered exactly if the node finds the latest block, its environment and its state. A
/// latest block that is not found is named as the latest, and a failure of the node is handed on, the
/// first one in the order in which the node is asked.
pub proof fn law_when_answered<E>(
    calls: Seq<TransactionRequest>,
    a: BundleReplies<E>,
    steps: Seq<BundleStep<E>>,
    r: Result<Vec<SimulateTransactionAtResult>, SimulationError<E>>,
)
    requires
        steps.len() > 0,
        steps[0] matches BundleStep::FindLatest(s) && s.calls@ == calls,
        forall|k: int|
            0 <= k < steps.len() - 1 ==> follows(#[trigger] steps[k], a, steps[k + 1]),
        steps.last() == BundleStep::<E>::Finished(r),
    ensures
        r is Ok <==> (a.hash matches Ok(Some(_))) && a.env is Ok && (a.block matches Ok(Some(_)))
            && a.opened is Ok,
        !(a.hash matches Ok(Some(_))) ==> (r matches Err(e) && e == SimulationError::<
            E,
        >::HeaderNotFound(BlockId::Number(BlockNumberOrTag::Latest))),
        (a.hash matches Ok(Some(_))) ==> (a.env matches Err(f) ==> (r matches Err(e) && e
            == SimulationError::Node(f))),
        (a.hash matches Ok(Some(_))) && a.env is Ok ==> (a.block matches Err(f) ==> (r matches Err(
            e,
        ) && e == SimulationError::Node(f))),
        (a.hash matches Ok(Some(_))) && a.env is Ok ==> (a.block matches Ok(None) ==> (
        r matches Err(e) && e == SimulationError::<E>::HeaderNotFound(
            BlockId::Number(BlockNumberOrTag::Latest),
        ))),
        (a.hash matches Ok(Some(_))) && a.env is Ok && (a.block matches Ok(Some(_))) ==> (
        a.opened matches Err(f) ==> (r matches Err(e) && e == SimulationError::Node(f))),
        r matches Ok(rs) ==> rs@.len() == calls.len(),
{
    lemma_run_to(calls, a, steps, steps.len() - 1);
}

/// A bundle is begun exactly if each of its inputs stands for a request, and then with these requests,
/// in their order. Otherwise it is refused with the error of the first that stands for none.
pub proof fn law_bundle_is_read<E>(
    bundle: Seq<SimulationTxInput<TransactionRequest>>,
    t: BundleStep<E>,
)
    requires
        begins_with(bundle, t),
    ensures
        (forall|j: int|
            0 <= j < bundle.len() ==> transaction_request::candidate(#[trigger] bundle[j]) is Ok)
            ==> (t matches BundleStep::FindLatest(s) && s.calls@.len() == bundle.len() && forall|
            j: int,
        |
            0 <= j < bundle.len() ==> transaction_request::candidate(#[trigger] bundle[j]) == Ok::<
                RequestView,
                ErrorView,
            >(s.calls@[j]@)),
        forall|i: int|
            0 <= i < bundle.len() && transaction_request::candidate(#[trigger] bundle[i]) is Err
                && (forall|j: int|
                0 <= j < i ==> transaction_request::candidate(#[trigger] bundle[j]) is Ok) ==> (
            t matches BundleStep::Finished(Err(SimulationError::Rejected(o)))
                && transaction_request::candidate(bundle[i]) == Err::<RequestView, ErrorView>(
                ErrorView { code: o.code, message: o.message@ },
            )),
{
    match t {
        BundleStep::FindLatest(s) => {
            let calls = request_views(s.calls@);
            assert(calls.len() == s.calls@.len());
            assert forall|j: int| 0 <= j < bundle.len() implies transaction_request::candidate(
                #[trigger] bundle[j],
            ) == Ok::<RequestView, ErrorView>(s.calls@[j]@) by {
                assert(calls[j] == s.calls@[j]@);
            }
        },
        BundleStep::Finished(Err(SimulationError::Rejected(o))) => {
            let k = choose|k: int| first_fault(bundle, k, o@);
            assert(first_fault(bundle, k, o@));
            assert(transaction_request::candidate(bundle[k]) is Err);
            assert forall|i: int|
                0 <= i < bundle.len() && transaction_request::candidate(#[trigger] bundle[i]) is Err
                    && (forall|j: int|
                    0 <= j < i ==> transaction_request::candidate(
                        #[trigger] bundle[j],
                    ) is Ok) implies i == k by {
                if k < i {
                    assert(transaction_request::candidate(bundle[k]) is Ok);
                } else if i < k {
                    assert(transaction_request::candidate(bundle[i]) is Ok);
                }
            }
        },
        _ => {},
    }
}

} // verus!
