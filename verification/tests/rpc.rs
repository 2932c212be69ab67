use alloy_primitives::hex;
use bsc_node::num::U256;
use bsc_node::rpc::error_object::{ErrorObject, INVALID_PARAMS_CODE};
use bsc_node::rpc::flashsimv2::{
    bad_filter, not_ready, FilteredLogsParamsV1, FlashSimV2ApiImpl, ERR_BAD_FILTER, ERR_NOT_READY,
};
use bsc_node::rpc::keepers::{
    default_gas_limit, lenient_block_gas_limit, BundleStep, KeepersApiImpl,
};
use bsc_node::rpc::simulate_transaction_at::{
    convert_sim_call_result, AtStep, EthSimulateTransactionAtApiImpl, SimCallResult, SimulateError,
};
use bsc_node::rpc::simulation::{
    halted, normalize_error_message, settled, BlockId, BlockInfo, BlockNumberOrTag, EnvOverrides,
    ExecutionResult, Log, LogEntry, Position, SimulateTransactionAtResult,
    SimulateTransactionAtStatus, SimulationError,
};
use bsc_node::rpc::transaction_request::{
    answer_raw, decode_candidate_transaction, raw_transaction_payload, RawOutcome,
    TransactionRequest,
};
use bsc_node::rpc::tx_input::{JsonInput, SimulationTxInput, TxInputError};

// A legacy transaction, signed for chain one.
const LEGACY: &str = "f86c098504a817c800825208943535353535353535353535353535353535353535880de0b6b3a76400008025a028ef61340bd939bc2195fe537567866003e1a15d3c71ff63e1590620aa636276a067cbe9d8997f761aecb703304b3800ccf555c9f3dc64214b297fb1966a3b6d83";

fn legacy() -> Vec<u8> {
    hex::decode(LEGACY).unwrap()
}

fn raw(bytes: Vec<u8>) -> SimulationTxInput<TransactionRequest> {
    SimulationTxInput::raw(bytes)
}

// ---- flashsimv2 ----

#[test]
fn returns_expected_not_ready_code() {
    assert_eq!(not_ready().code, ERR_NOT_READY);
}

#[test]
fn returns_expected_bad_filter_code() {
    assert_eq!(bad_filter().code, ERR_BAD_FILTER);
}

#[test]
fn flashblocks_are_not_ready() {
    let api = FlashSimV2ApiImpl::new();
    let error = ErrorObject {
        code: -39_102,
        message: "flashblocks state is not available on BSC".to_string(),
    };
    assert_eq!(api.simulate_v1([1; 8], 0, 1, vec![]), Err(error.clone()));
    assert_eq!(api.unsubscribe_filtered_logs_v1("x".to_string()), Err(error.clone()));
    assert_eq!(api.subscribe_tx_inclusions_v1(), Err(error.clone()));
    assert_eq!(api.unsubscribe_tx_inclusions_v1("x".to_string()), Err(error.clone()));
    let params = FilteredLogsParamsV1 { topic0s: vec![[1; 32]], addresses: None };
    assert_eq!(api.subscribe_filtered_logs_v1(params), Err(error));
}

#[test]
fn filter_without_topics_is_refused() {
    let params = FilteredLogsParamsV1 { topic0s: vec![], addresses: Some(vec![[1; 20]]) };
    assert_eq!(
        FlashSimV2ApiImpl::default().subscribe_filtered_logs_v1(params),
        Err(ErrorObject { code: -39_105, message: "topic0s must be non-empty".to_string() })
    );
}

// ---- gas of a bundle ----

#[test]
fn lenient_block_gas_limit_respects_total_requested_gas() {
    let calls = vec![
        TransactionRequest::default().gas_limit(100),
        TransactionRequest::default().gas_limit(200),
    ];
    assert_eq!(lenient_block_gas_limit(250, &calls), 300);
    assert_eq!(lenient_block_gas_limit(400, &calls), 400);
}

#[test]
fn default_gas_limit_splits_unspecified_gas_evenly() {
    let calls = vec![
        TransactionRequest::default().gas_limit(200),
        TransactionRequest::default(),
        TransactionRequest::default(),
    ];
    assert_eq!(default_gas_limit(1_000, &calls), 400);
}

#[test]
fn gas_of_a_bundle_stays_in_range() {
    let calls = vec![
        TransactionRequest::default().gas_limit(u64::MAX),
        TransactionRequest::default().gas_limit(1),
        TransactionRequest::default(),
    ];
    assert_eq!(lenient_block_gas_limit(5, &calls), u64::MAX);
    assert_eq!(default_gas_limit(u64::MAX, &calls), 0);
    assert_eq!(default_gas_limit(100, &[]), 0);
    assert_eq!(lenient_block_gas_limit(100, &[]), 100);
    let named = vec![TransactionRequest::default().gas_limit(30)];
    assert_eq!(default_gas_limit(100, &named), 0);
    let mixed = vec![
        TransactionRequest::default().gas_limit(30),
        TransactionRequest::default(),
        TransactionRequest::default(),
        TransactionRequest::default(),
    ];
    let limit = lenient_block_gas_limit(100, &mixed);
    assert_eq!(default_gas_limit(limit, &mixed), 23);
    assert!(30 + 3 * 23 <= limit);
}

// ---- results ----

#[test]
fn maps_success_result() {
    let result = convert_sim_call_result(SimCallResult {
        return_data: vec![0xaa],
        logs: Vec::new(),
        gas_used: 21_000,
        status: true,
        error: None,
    });
    assert_eq!(result.status, SimulateTransactionAtStatus::Success);
    assert_eq!(result.gas_used, U256::from_u64(21_000));
    assert_eq!(result.return_data, vec![0xaa]);
    assert!(result.error.is_none());
}

#[test]
fn maps_revert_result_and_strips_prefix() {
    let result = convert_sim_call_result(SimCallResult {
        return_data: Vec::new(),
        logs: Vec::new(),
        gas_used: 42_000,
        status: false,
        error: Some(SimulateError {
            code: 3,
            message: "execution reverted: not enough balance".to_string(),
        }),
    });
    assert_eq!(result.status, SimulateTransactionAtStatus::Revert);
    assert_eq!(result.error.as_deref(), Some("not enough balance"));
}

#[test]
fn maps_halt_result() {
    let result = convert_sim_call_result(SimCallResult {
        return_data: Vec::new(),
        logs: Vec::new(),
        gas_used: 7_000,
        status: false,
        error: Some(SimulateError { code: -32_015, message: "out of gas".to_string() }),
    });
    assert_eq!(result.status, SimulateTransactionAtStatus::Halt);
    assert_eq!(result.error.as_deref(), Some("out of gas"));
}

#[test]
fn maps_failure_without_error() {
    let call = |status| SimCallResult {
        return_data: vec![1],
        logs: Vec::new(),
        gas_used: 1,
        status,
        error: None,
    };
    let result = convert_sim_call_result(call(false));
    assert_eq!(result.status, SimulateTransactionAtStatus::Halt);
    assert_eq!(result.error, None);
    let mut odd = call(true);
    odd.error =
        Some(SimulateError { code: 3, message: "execution reverted: odd".to_string() });
    let result = convert_sim_call_result(odd);
    assert_eq!(result.status, SimulateTransactionAtStatus::Success);
    assert_eq!(result.error.as_deref(), Some("execution reverted: odd"));
}

#[test]
fn only_reverts_lose_their_prefix() {
    let message = || "execution reverted: why".to_string();
    use_message(SimulateTransactionAtStatus::Revert, message(), "why");
    use_message(SimulateTransactionAtStatus::Halt, message(), "execution reverted: why");
    use_message(SimulateTransactionAtStatus::Success, message(), "execution reverted: why");
    use_message(SimulateTransactionAtStatus::Revert, "execution reverted".to_string(), "execution reverted");
    use_message(SimulateTransactionAtStatus::Revert, "execution reverted: ".to_string(), "");
}

fn use_message(status: SimulateTransactionAtStatus, message: String, expected: &str) {
    assert_eq!(normalize_error_message(status, message), expected);
}

fn position() -> Position {
    Position { tx_hash: [9; 32], tx_index: 3, block_number: 10, block_timestamp: 99 }
}

fn entry(n: u8) -> LogEntry {
    LogEntry { address: [n; 20], topics: vec![[n; 32]], data: vec![n] }
}

fn stamped(n: u8, tx_hash: [u8; 32], tx_index: u64) -> Log {
    Log {
        inner: entry(n),
        block_hash: None,
        block_number: Some(10),
        block_timestamp: Some(99),
        transaction_hash: Some(tx_hash),
        transaction_index: Some(tx_index),
        log_index: None,
        removed: false,
    }
}

#[test]
fn executions_settle() {
    let success = settled(
        ExecutionResult::Success { output: vec![1, 2], gas_used: 50, logs: vec![entry(1), entry(2)] },
        &position(),
    );
    assert_eq!(success.status, SimulateTransactionAtStatus::Success);
    assert_eq!(success.gas_used, U256::from_u64(50));
    assert_eq!(success.return_data, vec![1, 2]);
    assert_eq!(success.logs, vec![stamped(1, [9; 32], 3), stamped(2, [9; 32], 3)]);
    assert_eq!(success.error, None);
    let revert = settled(
        ExecutionResult::Revert {
            output: vec![7],
            gas_used: 60,
            message: "execution reverted: no".to_string(),
        },
        &position(),
    );
    assert_eq!(revert.status, SimulateTransactionAtStatus::Revert);
    assert_eq!(revert.return_data, vec![7]);
    assert!(revert.logs.is_empty());
    assert_eq!(revert.error.as_deref(), Some("no"));
    let halt = settled(
        ExecutionResult::Halt { gas_used: 70, message: "execution reverted: gas".to_string() },
        &position(),
    );
    assert_eq!(halt.status, SimulateTransactionAtStatus::Halt);
    assert_eq!(halt.gas_used, U256::from_u64(70));
    assert!(halt.return_data.is_empty());
    assert_eq!(halt.error.as_deref(), Some("execution reverted: gas"));
}

// ---- candidates ----

#[test]
fn accepts_unsigned_candidate_transaction() {
    let request = decode_candidate_transaction(SimulationTxInput::request(
        TransactionRequest::default().gas_limit(21_000),
    ))
    .expect("request input must pass through");
    assert_eq!(request.as_ref().gas, Some(21_000));
}

#[test]
fn raw_candidate_becomes_a_request() {
    let request = decode_candidate_transaction(raw(legacy())).unwrap();
    assert_eq!(request.gas, Some(21_000));
    let fields: serde_json::Value = serde_json::from_str(&request.fields).unwrap();
    assert_eq!(fields["from"], "0x9d8a62f656a8d1615c1294fd71e9cfb3e4855a4f");
    assert_eq!(fields["to"], "0x3535353535353535353535353535353535353535");
    assert_eq!(fields["nonce"], "0x9");
    assert_eq!(fields["value"], "0xde0b6b3a7640000");
    assert_eq!(fields["gasPrice"], "0x4a817c800");
    assert!(fields.get("gas").is_none());
    let back: alloy_rpc_types::TransactionRequest = serde_json::from_str(&request.fields).unwrap();
    assert_eq!(back.nonce, Some(9));
    assert_eq!(back.gas, None);
}

#[test]
fn undecodable_candidate_is_refused() {
    let error = decode_candidate_transaction(raw(vec![0x05, 0x01])).unwrap_err();
    assert_eq!(error.code, INVALID_PARAMS_CODE);
    assert_eq!(error.message, "invalid signed transaction: unexpected tx type");
    let mut longer = legacy();
    longer.push(0);
    let error = decode_candidate_transaction(raw(longer)).unwrap_err();
    assert_eq!(error.message, "invalid signed transaction: unexpected length");
    assert!(decode_candidate_transaction(raw(vec![])).is_err());
    assert_eq!(INVALID_PARAMS_CODE, jsonrpsee_types::error::INVALID_PARAMS_CODE);
}

#[test]
fn candidate_without_a_signer_is_refused() {
    let mut bytes = legacy();
    let n = bytes.len();
    for b in &mut bytes[n - 32..] {
        *b = 0xff;
    }
    let error = decode_candidate_transaction(raw(bytes)).unwrap_err();
    assert_eq!(error.code, INVALID_PARAMS_CODE);
    assert!(error.message.starts_with("invalid signer for signed transaction: "));
}

#[test]
fn outcomes_of_raw_bytes_are_answered() {
    let request = TransactionRequest::default().gas_limit(5);
    assert_eq!(answer_raw(RawOutcome::Request(request.clone())), Ok(request));
    assert_eq!(
        answer_raw(RawOutcome::Undecodable("a".to_string())),
        Err(ErrorObject { code: -32602, message: "invalid signed transaction: a".to_string() })
    );
    assert_eq!(
        answer_raw(RawOutcome::Unsigned("b".to_string())),
        Err(ErrorObject {
            code: -32602,
            message: "invalid signer for signed transaction: b".to_string()
        })
    );
}

#[test]
fn raw_transactions_are_sent_in_network_form() {
    assert_eq!(raw_transaction_payload(&legacy()), Ok(legacy()));
    assert_eq!(
        raw_transaction_payload(&[0x05, 0x01]),
        Err("unexpected tx type".to_string())
    );
    // A typed transaction travels as a string.
    let typed = hex::decode("02f872018307910d808507204d2cb1827d0094388c818ca8b9251b393131c08a736a67ccb19297880320d04823e2701c80c001a0cf024f4815304df2867a1a74e9d2707b6abda0337d2d54a4438d453f4160f190a07ac0e6b3bc9395b5b9c8b9e6d77204a236577a5b18467b9175c01de4faa208d9").unwrap();
    let sent = raw_transaction_payload(&typed).unwrap();
    assert_eq!(sent, alloy_rlp::encode(typed.as_slice()));
}

// ---- inputs as JSON ----

fn as_input(value: serde_json::Value) -> JsonInput<serde_json::Value> {
    match value {
        serde_json::Value::Object(map) => JsonInput::Object(map.into_iter().collect()),
        other => JsonInput::Other(other),
    }
}

fn as_value(input: JsonInput<serde_json::Value>) -> serde_json::Value {
    match input {
        JsonInput::Object(fields) => serde_json::Value::Object(fields.into_iter().collect()),
        JsonInput::Other(value) => value,
    }
}

type Input = SimulationTxInput<alloy_rpc_types::TransactionRequest>;

fn parse(text: &str) -> Result<Input, TxInputError<String>> {
    SimulationTxInput::deserialize(
        as_input(serde_json::from_str(text).unwrap()),
        |v| {
            serde_json::from_value::<alloy_primitives::Bytes>(v)
                .map(|b| b.to_vec())
                .map_err(|e| e.to_string())
        },
        |v| serde_json::from_value(as_value(v)).map_err(|e| e.to_string()),
    )
}

#[test]
fn deserializes_raw_tx_object() {
    let input = parse(r#"{ "rawTx": "0x1234" }"#).unwrap();
    assert_eq!(input, SimulationTxInput::raw(vec![0x12, 0x34]));
}

#[test]
fn deserializes_unsigned_request_object() {
    let input = parse(
        r#"{
            "from": "0x0000000000000000000000000000000000000001",
            "to": "0x0000000000000000000000000000000000000002",
            "gas": "0x5208"
        }"#,
    )
    .unwrap();
    match input {
        SimulationTxInput::Request(request) => {
            assert_eq!(request.gas, Some(21_000));
            assert!(request.to.is_some());
        }
        other => panic!("expected request input, got {other:?}"),
    }
}

#[test]
fn raw_tx_beside_other_fields_is_refused() {
    let error = parse(r#"{ "rawTx": "0x1234", "gas": "0x5208" }"#).unwrap_err();
    assert_eq!(error, TxInputError::Combined);
    assert_eq!(
        error.message(),
        Some("rawTx cannot be combined with transaction request fields")
    );
}

#[test]
fn unreadable_inputs_are_refused() {
    for text in [r#"{ "rawTx": "zz" }"#, r#"{ "gas": true }"#, "5"] {
        let error = parse(text).unwrap_err();
        assert!(matches!(error, TxInputError::Invalid(_)));
        assert_eq!(error.message(), None);
    }
    assert!(matches!(parse("{}"), Ok(SimulationTxInput::Request(_))));
}

#[test]
fn raw_input_survives_json() {
    let input: Input = SimulationTxInput::raw(vec![0xab, 0xcd]);
    let written = as_value(input.clone().serialize(
        |b| serde_json::to_value(alloy_primitives::Bytes::from(b)).unwrap(),
        |q| as_input(serde_json::to_value(q).unwrap()),
    ));
    assert_eq!(written.to_string(), r#"{"rawTx":"0xabcd"}"#);
    assert_eq!(parse(&written.to_string()), Ok(input));
    let request: Input = SimulationTxInput::request(alloy_rpc_types::TransactionRequest {
        nonce: Some(4),
        ..Default::default()
    });
    let written = as_value(request.clone().serialize(
        |b| serde_json::to_value(alloy_primitives::Bytes::from(b)).unwrap(),
        |q| as_input(serde_json::to_value(q).unwrap()),
    ));
    assert_eq!(parse(&written.to_string()), Ok(request));
}

// ---- eth_simulateTransactionAt ----

fn block() -> BlockInfo {
    BlockInfo { number: 10, timestamp: 99, gas_limit: 1_000, parent_hash: [8; 32], tx_count: 3 }
}

fn start(index: u64, input: SimulationTxInput<TransactionRequest>, cap: u64) -> AtStep<&'static str> {
    EthSimulateTransactionAtApiImpl::new("api").simulate_transaction_at(
        BlockId::Number(BlockNumberOrTag::Latest),
        index,
        input,
        cap,
    )
}

fn candidate() -> SimulationTxInput<TransactionRequest> {
    SimulationTxInput::request(TransactionRequest::default())
}

fn not_found(id: BlockId) -> AtStep<&'static str> {
    AtStep::Finished(Err(SimulationError::HeaderNotFound(id)))
}

fn latest() -> BlockId {
    BlockId::Number(BlockNumberOrTag::Latest)
}

/// The step at which the block was asked for.
fn at_block(index: u64, input: SimulationTxInput<TransactionRequest>, cap: u64, found: BlockInfo) -> AtStep<&'static str> {
    let AtStep::FindHash(s) = start(index, input, cap) else { panic!() };
    let AtStep::PrepareEnv(s) = s.resume::<&str>(Ok(Some([5; 32]))) else { panic!() };
    assert_eq!(s.target, BlockId::Hash { block_hash: [5; 32], require_canonical: None });
    let AtStep::FetchBlock(s) = s.resume::<&str>(Ok(())) else { panic!() };
    assert_eq!(s.target, BlockId::Hash { block_hash: [5; 32], require_canonical: None });
    s.resume(Ok(Some(found)))
}

#[test]
fn pending_block_needs_no_hash() {
    let pending = BlockId::Number(BlockNumberOrTag::Pending);
    let api = EthSimulateTransactionAtApiImpl::new("api");
    assert_eq!(api.eth_api(), &"api");
    let step: AtStep<&str> = api.simulate_transaction_at(pending, 0, candidate(), 0);
    let AtStep::PrepareEnv(s) = step else { panic!() };
    assert_eq!(s.target, pending);
    let AtStep::FetchBlock(s) = s.resume::<&str>(Ok(())) else { panic!() };
    assert_eq!(s.resume(Ok(None)), not_found(pending));
}

#[test]
fn block_that_is_not_there_ends_the_simulation() {
    for reply in [Ok(None), Err("io")] {
        let AtStep::FindHash(s) = start(0, candidate(), 0) else { panic!() };
        assert_eq!(s.resume(reply), not_found(latest()));
    }
    let AtStep::FindHash(s) = start(0, candidate(), 0) else { panic!() };
    let AtStep::PrepareEnv(s) = s.resume::<&str>(Ok(Some([5; 32]))) else { panic!() };
    let AtStep::FetchBlock(s) = s.resume::<&str>(Ok(())) else { panic!() };
    assert_eq!(s.resume(Ok(None)), not_found(latest()));
}

#[test]
fn failures_of_the_node_end_the_simulation() {
    let failed = || AtStep::Finished(Err(SimulationError::Node("io")));
    let AtStep::FindHash(s) = start(0, candidate(), 0) else { panic!() };
    let AtStep::PrepareEnv(s) = s.resume::<&str>(Ok(Some([5; 32]))) else { panic!() };
    assert_eq!(s.resume(Err("io")), failed());
    let AtStep::FindHash(s) = start(0, candidate(), 0) else { panic!() };
    let AtStep::PrepareEnv(s) = s.resume::<&str>(Ok(Some([5; 32]))) else { panic!() };
    let AtStep::FetchBlock(s) = s.resume::<&str>(Ok(())) else { panic!() };
    assert_eq!(s.resume(Err("io")), failed());
    let AtStep::OpenState(s) = at_block(1, candidate(), 0, block()) else { panic!() };
    assert_eq!(s.resume(Err("io")), failed());
    let AtStep::OpenState(s) = at_block(1, candidate(), 0, block()) else { panic!() };
    let AtStep::Replay(s) = s.resume::<&str>(Ok(())) else { panic!() };
    assert_eq!(s.resume(Err("io")), failed());
}

#[test]
fn index_behind_the_block_is_refused() {
    let AtStep::Finished(Err(SimulationError::Rejected(e))) = at_block(4, candidate(), 0, block())
    else {
        panic!()
    };
    assert_eq!(e.code, INVALID_PARAMS_CODE);
    assert_eq!(e.message, "transactionIndex 4 exceeds block transaction count 3");
    assert!(matches!(at_block(3, candidate(), 0, block()), AtStep::OpenState(_)));
}

#[test]
fn bad_candidate_is_refused_behind_the_index() {
    let AtStep::Finished(Err(SimulationError::Rejected(e))) =
        at_block(3, raw(vec![0x05, 0x01]), 0, block())
    else {
        panic!()
    };
    assert_eq!(e.message, "invalid signed transaction: unexpected tx type");
    let AtStep::Finished(Err(SimulationError::Rejected(e))) =
        at_block(4, raw(vec![0x05, 0x01]), 0, block())
    else {
        panic!()
    };
    assert_eq!(e.message, "transactionIndex 4 exceeds block transaction count 3");
}

#[test]
fn state_is_opened_behind_the_parent() {
    let AtStep::OpenState(s) = at_block(0, candidate(), 0, block()) else { panic!() };
    assert_eq!(s.parent, [8; 32]);
    assert_eq!(
        s.overrides,
        EnvOverrides {
            disable_eip3607: false,
            disable_nonce_check: false,
            disable_base_fee: false,
            disable_block_gas_limit: true,
            gas_limit: u64::MAX,
        }
    );
}

/// The default gas limit of a candidate behind transactions that used this much gas.
fn gas_limit_behind(used: &[u64], cap: u64) -> u64 {
    let AtStep::OpenState(s) = at_block(used.len() as u64, candidate(), cap, block()) else { panic!() };
    let mut step = s.resume::<&str>(Ok(()));
    for (i, gas) in used.iter().enumerate() {
        let AtStep::Replay(s) = step else { panic!() };
        assert_eq!(s.next, i as u64);
        step = s.resume(Ok(*gas));
    }
    let AtStep::Resolve(s) = step else { panic!() };
    s.default_gas_limit
}

#[test]
fn candidate_gets_the_gas_that_is_left() {
    assert_eq!(gas_limit_behind(&[], 0), 1_000);
    assert_eq!(gas_limit_behind(&[100, 250], 0), 650);
    assert_eq!(gas_limit_behind(&[100, 250], 600), 600);
    assert_eq!(gas_limit_behind(&[100, 250], 700), 650);
    assert_eq!(gas_limit_behind(&[900, 200], 0), 0);
    assert_eq!(gas_limit_behind(&[u64::MAX, u64::MAX, 1], 5), 0);
}

fn at_resolve() -> bsc_node::rpc::simulate_transaction_at::Resolve {
    let AtStep::OpenState(s) = at_block(0, candidate(), 0, block()) else { panic!() };
    let AtStep::Resolve(s) = s.resume::<&str>(Ok(())) else { panic!() };
    s
}

fn answer(step: AtStep<&'static str>) -> SimulateTransactionAtResult {
    let AtStep::Finished(Ok(r)) = step else { panic!() };
    r
}

#[test]
fn candidate_that_is_not_executed_halts() {
    assert_eq!(
        answer(at_resolve().resume(Err("no funds".to_string()))),
        halted("no funds".to_string())
    );
    let AtStep::Execute(s) = at_resolve().resume::<&str>(Ok([1; 32])) else { panic!() };
    assert_eq!(answer(s.resume(Err("nonce".to_string()))), halted("nonce".to_string()));
    let AtStep::Execute(s) = at_resolve().resume::<&str>(Ok([1; 32])) else { panic!() };
    assert_eq!(
        answer(s.resume(Ok(None))),
        halted("missing execution result for candidate transaction".to_string())
    );
}

#[test]
fn candidate_is_answered_with_its_result() {
    let AtStep::Execute(s) = at_resolve().resume::<&str>(Ok([1; 32])) else { panic!() };
    let r = answer(s.resume(Ok(Some(ExecutionResult::Success {
        output: vec![4],
        gas_used: 77,
        logs: vec![entry(6)],
    }))));
    assert_eq!(r.status, SimulateTransactionAtStatus::Success);
    assert_eq!(r.gas_used, U256::from_u64(77));
    assert_eq!(r.logs, vec![stamped(6, [1; 32], 0)]);
    let h = halted("x".to_string());
    assert_eq!(h.status, SimulateTransactionAtStatus::Halt);
    assert_eq!(h.gas_used, U256::from_u64(0));
    assert!(h.logs.is_empty() && h.return_data.is_empty());
    assert_eq!(h.error.as_deref(), Some("x"));
}

// ---- keepers_simulateAtLatestState ----

fn bundle(n: u64) -> Vec<SimulationTxInput<TransactionRequest>> {
    (0..n)
        .map(|i| SimulationTxInput::request(TransactionRequest::default().gas_limit(i)))
        .collect()
}

fn start_bundle(inputs: Vec<SimulationTxInput<TransactionRequest>>) -> BundleStep<&'static str> {
    let api = KeepersApiImpl::new("api");
    assert_eq!(api.eth_api(), &"api");
    api.simulate_at_latest_state(inputs)
}

fn open_bundle(inputs: Vec<SimulationTxInput<TransactionRequest>>) -> bsc_node::rpc::keepers::OpenState {
    let BundleStep::FindLatest(s) = start_bundle(inputs) else { panic!() };
    let BundleStep::PrepareEnv(s) = s.resume::<&str>(Ok(Some([5; 32]))) else { panic!() };
    let BundleStep::FetchBlock(s) = s.resume::<&str>(Ok(())) else { panic!() };
    let BundleStep::OpenState(s) = s.resume::<&str>(Ok(Some(block()))) else { panic!() };
    s
}

#[test]
fn bundle_with_a_bad_call_is_refused() {
    let mut inputs = bundle(2);
    inputs.push(raw(vec![0x05, 0x01]));
    inputs.push(raw(vec![]));
    let BundleStep::Finished(Err(SimulationError::Rejected(e))) = start_bundle(inputs) else {
        panic!()
    };
    assert_eq!(e.message, "invalid signed transaction: unexpected tx type");
}

#[test]
fn bundle_needs_the_latest_block() {
    let missing = || BundleStep::Finished(Err(SimulationError::HeaderNotFound(latest())));
    for reply in [Ok(None), Err("io")] {
        let BundleStep::FindLatest(s) = start_bundle(bundle(1)) else { panic!() };
        assert_eq!(s.resume(reply), missing());
    }
    let BundleStep::FindLatest(s) = start_bundle(bundle(1)) else { panic!() };
    let BundleStep::PrepareEnv(s) = s.resume::<&str>(Ok(Some([5; 32]))) else { panic!() };
    let BundleStep::FetchBlock(s) = s.resume::<&str>(Ok(())) else { panic!() };
    assert_eq!(s.resume(Ok(None)), missing());
}

#[test]
fn failures_of_the_node_end_the_bundle() {
    let failed = || BundleStep::Finished(Err(SimulationError::Node("io")));
    let BundleStep::FindLatest(s) = start_bundle(bundle(1)) else { panic!() };
    let BundleStep::PrepareEnv(s) = s.resume::<&str>(Ok(Some([5; 32]))) else { panic!() };
    assert_eq!(s.resume(Err("io")), failed());
    let BundleStep::FindLatest(s) = start_bundle(bundle(1)) else { panic!() };
    let BundleStep::PrepareEnv(s) = s.resume::<&str>(Ok(Some([5; 32]))) else { panic!() };
    let BundleStep::FetchBlock(s) = s.resume::<&str>(Ok(())) else { panic!() };
    assert_eq!(s.resume(Err("io")), failed());
    assert_eq!(open_bundle(bundle(1)).resume(Err("io")), failed());
}

#[test]
fn bundle_runs_in_a_block_that_has_room() {
    let inputs = vec![
        SimulationTxInput::request(TransactionRequest::default().gas_limit(5_000)),
        SimulationTxInput::request(TransactionRequest::default()),
    ];
    let s = open_bundle(inputs);
    assert_eq!(s.target, BlockId::Hash { block_hash: [5; 32], require_canonical: None });
    assert_eq!(
        s.overrides,
        EnvOverrides {
            disable_eip3607: true,
            disable_nonce_check: true,
            disable_base_fee: true,
            disable_block_gas_limit: true,
            gas_limit: 5_000,
        }
    );
    assert_eq!(s.run.default_gas_limit, 0);
    assert_eq!(open_bundle(vec![candidate(), candidate()]).run.default_gas_limit, 500);
}

#[test]
fn every_call_of_a_bundle_has_a_result() {
    let BundleStep::Resolve(s) = open_bundle(bundle(5)).resume::<&str>(Ok(())) else { panic!() };
    assert_eq!(s.call.gas, Some(0));
    let BundleStep::Resolve(s) = s.resume::<&str>(Err("first".to_string())) else { panic!() };
    assert_eq!(s.call.gas, Some(1));
    let BundleStep::Execute(s) = s.resume::<&str>(Ok([1; 32])) else { panic!() };
    let BundleStep::Resolve(s) = s.resume::<&str>(Err("second".to_string())) else { panic!() };
    let BundleStep::Execute(s) = s.resume::<&str>(Ok([2; 32])) else { panic!() };
    let BundleStep::Resolve(s) = s.resume::<&str>(Ok(None)) else { panic!() };
    let BundleStep::Execute(s) = s.resume::<&str>(Ok([3; 32])) else { panic!() };
    let result = ExecutionResult::Success { output: vec![], gas_used: 5, logs: vec![entry(3)] };
    let BundleStep::Resolve(s) = s.resume::<&str>(Ok(Some(result))) else { panic!() };
    assert_eq!(s.call.gas, Some(4));
    let BundleStep::Execute(s) = s.resume::<&str>(Ok([4; 32])) else { panic!() };
    let result = ExecutionResult::Revert {
        output: vec![9],
        gas_used: 6,
        message: "execution reverted: no".to_string(),
    };
    let BundleStep::Finished(Ok(results)) = s.resume::<&str>(Ok(Some(result))) else { panic!() };
    assert_eq!(results.len(), 5);
    assert_eq!(results[0], halted("first".to_string()));
    assert_eq!(results[1], halted("second".to_string()));
    assert_eq!(
        results[2],
        halted("missing execution result for bundle transaction".to_string())
    );
    assert_eq!(results[3].logs, vec![stamped(3, [3; 32], 3)]);
    assert_eq!(results[4].status, SimulateTransactionAtStatus::Revert);
    assert_eq!(results[4].error.as_deref(), Some("no"));
}

#[test]
fn empty_bundle_has_no_results() {
    assert_eq!(
        open_bundle(vec![]).resume::<&str>(Ok(())),
        BundleStep::Finished(Ok(vec![]))
    );
}
