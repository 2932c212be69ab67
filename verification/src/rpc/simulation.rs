//! What the simulations are asked, what the node tells them, and what they answer.
use crate::node::primitives::{Address, B256};
use crate::num::U256;
use crate::rpc::error_object::ErrorObject;
use crate::text;
use crate::text::strip_prefix;
use vstd::prelude::*;
use vstd::string::*;

verus! {

/// A block by number or by name.
#[derive(Clone, Copy, Debug, PartialEq, Eq)]
pub enum BlockNumberOrTag {
    Latest,
    Finalized,
    Safe,
    Earliest,
    Pending,
    Number(u64),
}

/// A block by hash, by number or by name.
#[derive(Clone, Copy, Debug, PartialEq, Eq)]
pub enum BlockId {
    Hash { block_hash: B256, require_canonical: Option<bool> },
    Number(BlockNumberOrTag),
}

impl BlockId {
    /// The block with this hash, on whichever branch.
    pub open spec fn of_hash(hash: B256) -> BlockId {
        BlockId::Hash { block_hash: hash, require_canonical: None }
    }

    /// The block with this hash, on whichever branch.
    pub fn from_hash(hash: B256) -> (r: BlockId)
        ensures
            r == BlockId::of_hash(hash),
    {
        BlockId::Hash { block_hash: hash, require_canonical: None }
    }

    /// Whether this is the block that is being built.
    pub fn is_pending(&self) -> (r: bool)
        ensures
            r == (*self == BlockId::Number(BlockNumberOrTag::Pending)),
    {
        match self {
            BlockId::Number(BlockNumberOrTag::Pending) => true,
            _ => false,
        }
    }
}

/// What the simulations read of a block.
#[derive(Clone, Copy, Debug, PartialEq, Eq)]
pub struct BlockInfo {
    pub number: u64,
    pub timestamp: u64,
    pub gas_limit: u64,
    pub parent_hash: B256,
    pub tx_count: u64,
}

/// How the environment of the block is changed for a simulation. A check that is not switched off
/// stays as the environment has it.
#[derive(Clone, Copy, Debug, PartialEq, Eq)]
pub struct EnvOverrides {
    pub disable_eip3607: bool,
    pub disable_nonce_check: bool,
    pub disable_base_fee: bool,
    pub disable_block_gas_limit: bool,
    pub gas_limit: u64,
}

/// Why a simulation could not be made.
#[derive(Debug, PartialEq, Eq)]
pub enum SimulationError<E> {
    /// There is no such block.
    HeaderNotFound(BlockId),
    /// The parameters were refused.
    Rejected(ErrorObject),
    /// The node failed.
    Node(E),
}

/// A log as the execution left it.
#[derive(Clone, Debug, PartialEq, Eq)]
pub struct LogEntry {
    pub address: Address,
    pub topics: Vec<B256>,
    pub data: Vec<u8>,
}

/// A log together with where it comes from.
#[derive(Clone, Debug, PartialEq, Eq)]
pub struct Log {
    pub inner: LogEntry,
    pub block_hash: Option<B256>,
    pub block_number: Option<u64>,
    pub block_timestamp: Option<u64>,
    pub transaction_hash: Option<B256>,
    pub transaction_index: Option<u64>,
    pub log_index: Option<u64>,
    pub removed: bool,
}

/// Where a simulated transaction stands.
#[derive(Clone, Copy, Debug, PartialEq, Eq)]
pub struct Position {
    pub tx_hash: B256,
    pub tx_index: u64,
    pub block_number: u64,
    pub block_timestamp: u64,
}

/// How an execution ended. A reverted or halted one comes with the words for it.
#[derive(Debug, PartialEq, Eq)]
pub enum ExecutionResult {
    Success { output: Vec<u8>, gas_used: u64, logs: Vec<LogEntry> },
    Revert { output: Vec<u8>, gas_used: u64, message: String },
    Halt { gas_used: u64, message: String },
}

/// Result status of a simulation.
#[derive(Clone, Copy, Debug, PartialEq, Eq, Structural)]
pub enum SimulateTransactionAtStatus {
    Success,
    Revert,
    Halt,
}

/// Result payload of a simulation.
#[derive(Clone, Debug, PartialEq, Eq)]
pub struct SimulateTransactionAtResult {
    pub status: SimulateTransactionAtStatus,
    pub gas_used: U256,
    pub logs: Vec<Log>,
    pub return_data: Vec<u8>,
    pub error: Option<String>,
}

/// What a [`SimulateTransactionAtResult`] holds.
#[verifier::ext_equal]
pub struct ResultView {
    pub status: SimulateTransactionAtStatus,
    pub gas_used: nat,
    pub logs: Seq<Log>,
    pub return_data: Seq<u8>,
    pub error: Option<Seq<char>>,
}

/// The contents of an optional text.
pub open spec fn opt_text(o: Option<String>) -> Option<Seq<char>> {
    match o {
        Some(s) => Some(s@),
        None => None,
    }
}

impl View for SimulateTransactionAtResult {
    type V = ResultView;

    open spec fn view(&self) -> ResultView {
        ResultView {
            status: self.status,
            gas_used: self.gas_used@,
            logs: self.logs@,
            return_data: self.return_data@,
            error: opt_text(self.error),
        }
    }
}

/// The message of a result: of a reverted one without the words that every such message starts with.
pub open spec fn normalized(status: SimulateTransactionAtStatus, message: Seq<char>) -> Seq<char> {
    let prefix = "execution reverted: "@;
    if status == SimulateTransactionAtStatus::Revert && text::starts_with(message, prefix) {
        message.skip(prefix.len() as int)
    } else {
        message
    }
}

/// The message of a result: of a reverted one without the words that every such message starts with.
pub fn normalize_error_message(status: SimulateTransactionAtStatus, message: String) -> (r: String)
    ensures
        r@ == normalized(status, message@),
{
    if matches!(status, SimulateTransactionAtStatus::Revert) {
        if let Some(stripped) = strip_prefix(message.as_str(), "execution reverted: ") {
            return String::from_str(stripped);
        }
    }
    message
}

/// The result of a transaction that was never executed to an end.
pub open spec fn halted_view(message: Seq<char>) -> ResultView {
    ResultView {
        status: SimulateTransactionAtStatus::Halt,
        gas_used: 0,
        logs: Seq::empty(),
        return_data: Seq::empty(),
        error: Some(message),
    }
}

/// The result of a transaction that was never executed to an end.
pub fn halted(message: String) -> (r: SimulateTransactionAtResult)
    ensures
        r@ == halted_view(message@),
{
    let r = SimulateTransactionAtResult {
        status: SimulateTransactionAtStatus::Halt,
        gas_used: U256::from_u64(0),
        logs: Vec::new(),
        return_data: Vec::new(),
        error: Some(message),
    };
    assert(r@ =~= halted_view(message@));
    r
}

/// A log with where it comes from: the block is known by number and time only.
pub open spec fn stamped(entry: LogEntry, at: Position) -> Log {
    Log {
        inner: entry,
        block_hash: None,
        block_number: Some(at.block_number),
        block_timestamp: Some(at.block_timestamp),
        transaction_hash: Some(at.tx_hash),
        transaction_index: Some(at.tx_index),
        log_index: None,
        removed: false,
    }
}

/// The logs with where they come from.
pub fn stamp_logs(entries: Vec<LogEntry>, at: &Position) -> (r: Vec<Log>)
    ensures
        r@ == entries@.map_values(|e: LogEntry| stamped(e, *at)),
{
    let mut r: Vec<Log> = Vec::new();
    let ghost all = entries@;
    for entry in iter: entries
        invariant
            iter.seq() == all,
            r@ == all.take(iter.index()).map_values(|e: LogEntry| stamped(e, *at)),
    {
        let log = Log {
            inner: entry,
            block_hash: None,
            block_number: Some(at.block_number),
            block_timestamp: Some(at.block_timestamp),
            transaction_hash: Some(at.tx_hash),
            transaction_index: Some(at.tx_index),
            log_index: None,
            removed: false,
        };
        proof {
            let i = iter.index();
            assert(log == stamped(all[i], *at));
            assert(all.take(i + 1).map_values(|e: LogEntry| stamped(e, *at))
                =~= all.take(i).map_values(|e: LogEntry| stamped(e, *at)).push(log));
        }
        r.push(log);
    }
    assert(all.take(all.len() as int) =~= all);
    r
}

/// The result of an execution.
pub open spec fn settled_view(result: ExecutionResult, at: Position) -> ResultView {
    match result {
        ExecutionResult::Success { output, gas_used, logs } => ResultView {
            status: SimulateTransactionAtStatus::Success,
            gas_used: gas_used as nat,
            logs: logs@.map_values(|e: LogEntry| stamped(e, at)),
            return_data: output@,
            error: None,
        },
        ExecutionResult::Revert { output, gas_used, message } => ResultView {
            status: SimulateTransactionAtStatus::Revert,
            gas_used: gas_used as nat,
            logs: Seq::empty(),
            return_data: output@,
            error: Some(normalized(SimulateTransactionAtStatus::Revert, message@)),
        },
        ExecutionResult::Halt { gas_used, message } => ResultView {
            status: SimulateTransactionAtStatus::Halt,
            gas_used: gas_used as nat,
            logs: Seq::empty(),
            return_data: Seq::empty(),
            error: Some(message@),
        },
    }
}

/// The result of an execution.
pub fn settled(result: ExecutionResult, at: &Position) -> (r: SimulateTransactionAtResult)
    ensures
        r@ == settled_view(result, *at),
{
    match result {
        ExecutionResult::Success { output, gas_used, logs } => SimulateTransactionAtResult {
            status: SimulateTransactionAtStatus::Success,
            gas_used: U256::from_u64(gas_used),
            logs: stamp_logs(logs, at),
            return_data: output,
            error: None,
        },
        ExecutionResult::Revert { output, gas_used, message } => {
            let r = SimulateTransactionAtResult {
                status: SimulateTransactionAtStatus::Revert,
                gas_used: U256::from_u64(gas_used),
                logs: Vec::new(),
                return_data: output,
                error: Some(
                    normalize_error_message(SimulateTransactionAtStatus::Revert, message),
                ),
            };
            assert(r@.logs =~= Seq::empty());
            r
        },
        ExecutionResult::Halt { gas_used, message } => {
            let r = SimulateTransactionAtResult {
                status: SimulateTransactionAtStatus::Halt,
                gas_used: U256::from_u64(gas_used),
                logs: Vec::new(),
                return_data: Vec::new(),
                error: Some(message),
            };
            assert(r@.logs =~= Seq::empty());
            assert(r@.return_data =~= Seq::empty());
            r
        },
    }
}

/// The outcome of an attempt to execute a transaction: an error before it ran, no result at all, or
/// its result.
pub open spec fn executed_view(
    outcome: Result<Option<ExecutionResult>, String>,
    missing: Seq<char>,
    at: Position,
) -> ResultView {
    match outcome {
        Err(message) => halted_view(message@),
        Ok(None) => halted_view(missing),
        Ok(Some(result)) => settled_view(result, at),
    }
}

/// The outcome of an attempt to execute a transaction.
pub fn executed(
    outcome: Result<Option<ExecutionResult>, String>,
    missing: &str,
    at: &Position,
) -> (r: SimulateTransactionAtResult)
    ensures
        r@ == executed_view(outcome, missing@, *at),
{
    match outcome {
        Err(message) => halted(message),
        Ok(None) => halted(String::from_str(missing)),
        Ok(Some(result)) => settled(result, at),
    }
}

// ---- laws ----

/// A message that starts with the words of a revert loses them in the result of a revert, and only
/// there; any other message is kept whole.
pub proof fn law_normalized(status: SimulateTransactionAtStatus, message: Seq<char>)
    ensures
        forall|rest: Seq<char>|
            #![trigger "execution reverted: "@ + rest]
            status == SimulateTransactionAtStatus::Revert && message == "execution reverted: "@
                + rest ==> normalized(status, message) == rest,
        status != SimulateTransactionAtStatus::Revert ==> normalized(status, message) == message,
        (forall|rest: Seq<char>| message != #[trigger] ("execution reverted: "@ + rest))
            ==> normalized(status, message) == message,
{
    let words = "execution reverted: "@;
    assert forall|rest: Seq<char>|
        #![trigger "execution reverted: "@ + rest]
        status == SimulateTransactionAtStatus::Revert && message == "execution reverted: "@
            + rest implies normalized(status, message) == rest by {
        assert(message.take(words.len() as int) =~= words);
        assert(message.skip(words.len() as int) =~= rest);
    }
    if normalized(status, message) != message {
        let rest = message.skip(words.len() as int);
        assert(message =~= words + rest);
        assert(message == "execution reverted: "@ + rest);
    }
}

/// Whatever way an execution ended, its result reports the gas that the execution used.
pub proof fn law_gas_is_reported(
    result: ExecutionResult,
    at: Position,
    r: SimulateTransactionAtResult,
)
    requires
        r@ == settled_view(result, at),
    ensures
        result matches ExecutionResult::Success { gas_used, .. } ==> r.gas_used@ == gas_used,
        result matches ExecutionResult::Revert { gas_used, .. } ==> r.gas_used@ == gas_used,
        result matches ExecutionResult::Halt { gas_used, .. } ==> r.gas_used@ == gas_used,
{
}

/// Of two executions that end in whatever way, the one that used more gas is reported with more, and
/// nothing else that a result says goes by the gas.
pub proof fn law_gas_is_the_only_difference(
    output: Vec<u8>,
    message: String,
    logs: Vec<LogEntry>,
    g: u64,
    h: u64,
    at: Position,
)
    ensures
        ({
            let a = settled_view(ExecutionResult::Success { output, gas_used: g, logs }, at);
            let b = settled_view(ExecutionResult::Success { output, gas_used: h, logs }, at);
            b == (ResultView { gas_used: h as nat, ..a }) && a.gas_used == g
        }),
        ({
            let a = settled_view(ExecutionResult::Revert { output, gas_used: g, message }, at);
            let b = settled_view(ExecutionResult::Revert { output, gas_used: h, message }, at);
            b == (ResultView { gas_used: h as nat, ..a }) && a.gas_used == g
        }),
        ({
            let a = settled_view(ExecutionResult::Halt { gas_used: g, message }, at);
            let b = settled_view(ExecutionResult::Halt { gas_used: h, message }, at);
            b == (ResultView { gas_used: h as nat, ..a }) && a.gas_used == g
        }),
{
}

/// The result of an execution that succeeded carries its output and no error, and one log for each
/// that the execution left, in order, each with the place of the transaction.
pub proof fn law_success_is_reported(
    output: Vec<u8>,
    gas_used: u64,
    logs: Vec<LogEntry>,
    at: Position,
    r: SimulateTransactionAtResult,
)
    requires
        r@ == settled_view(ExecutionResult::Success { output, gas_used, logs }, at),
    ensures
        r.status == SimulateTransactionAtStatus::Success,
        r.gas_used@ == gas_used,
        r.return_data@ == output@,
        r.error is None,
        r.logs@.len() == logs@.len(),
        forall|i: int|
            0 <= i < logs@.len() ==> {
                let log = #[trigger] r.logs@[i];
                &&& log.inner == logs@[i]
                &&& log.transaction_index == Some(at.tx_index)
                &&& log.transaction_hash == Some(at.tx_hash)
                &&& log.block_number == Some(at.block_number)
                &&& log.block_timestamp == Some(at.block_timestamp)
                &&& log.block_hash is None
                &&& log.log_index is None
                &&& !log.removed
            },
{
    assert(r@.logs == r.logs@);
    assert(r@.error == opt_text(r.error));
}

/// The result of an execution that was reverted carries its output, no log, and its message without
/// the words that every such message starts with.
pub proof fn law_revert_is_reported(
    output: Vec<u8>,
    gas_used: u64,
    message: String,
    at: Position,
    r: SimulateTransactionAtResult,
)
    requires
        r@ == settled_view(ExecutionResult::Revert { output, gas_used, message }, at),
    ensures
        r.status == SimulateTransactionAtStatus::Revert,
        r.gas_used@ == gas_used,
        r.return_data@ == output@,
        r.logs@.len() == 0,
        r.error is Some,
        forall|rest: Seq<char>|
            message@ == #[trigger] ("execution reverted: "@ + rest) ==> r.error->0@ == rest,
        (forall|rest: Seq<char>| message@ != #[trigger] ("execution reverted: "@ + rest))
            ==> r.error->0@ == message@,
{
    assert(r@.error == opt_text(r.error));
    law_normalized(SimulateTransactionAtStatus::Revert, message@);
}

/// The result of an execution that was halted carries its message, and neither output nor log.
pub proof fn law_halt_is_reported(
    gas_used: u64,
    message: String,
    at: Position,
    r: SimulateTransactionAtResult,
)
    requires
        r@ == settled_view(ExecutionResult::Halt { gas_used, message }, at),
    ensures
        r.status == SimulateTransactionAtStatus::Halt,
        r.gas_used@ == gas_used,
        r.return_data@.len() == 0,
        r.logs@.len() == 0,
        r.error matches Some(e) && e@ == message@,
{
    assert(r@.error == opt_text(r.error));
}

/// A transaction that was never executed to an end is halted, without gas, output or log.
pub proof fn law_never_executed(message: Seq<char>, r: SimulateTransactionAtResult)
    requires
        r@ == halted_view(message),
    ensures
        r.status == SimulateTransactionAtStatus::Halt,
        r.gas_used@ == 0,
        r.return_data@.len() == 0,
        r.logs@.len() == 0,
        r.error matches Some(e) && e@ == message,
{
    assert(r@.error == opt_text(r.error));
}

/// An attempt that failed, or that left no result, never executed the transaction to an end, and is
/// reported with its own message or the one for a missing result; any other is reported by its
/// result.
pub proof fn law_executed(
    outcome: Result<Option<ExecutionResult>, String>,
    missing: Seq<char>,
    at: Position,
)
    ensures
        outcome matches Err(message) ==> executed_view(outcome, missing, at) == halted_view(
            message@,
        ),
        outcome matches Ok(None) ==> executed_view(outcome, missing, at) == halted_view(missing),
        outcome matches Ok(Some(result)) ==> executed_view(outcome, missing, at) == settled_view(
            result,
            at,
        ),
{
}

} // verus!
