//! Transaction requests, and the request that a raw signed transaction stands for.
use crate::node::primitives::Address;
use crate::rpc::error_object::{ErrorObject, ErrorView, INVALID_PARAMS_CODE};
use crate::rpc::tx_input::SimulationTxInput;
use crate::text::join;
use alloy_consensus::transaction::{Recovered, SignerRecoverable};
use alloy_consensus::{EthereumTxEnvelope, TxEip4844};
use alloy_eips::eip2718::Decodable2718;
use alloy_rlp::Encodable;
use vstd::prelude::*;
use vstd::string::*;

verus! {

/// A transaction request. Its gas limit is what simulations calculate with; the other fields are
/// kept as the JSON object that they arrive in.
#[derive(Debug, PartialEq, Eq)]
pub struct TransactionRequest {
    pub gas: Option<u64>,
    pub fields: String,
}

/// What a [`TransactionRequest`] holds.
pub struct RequestView {
    pub gas: Option<u64>,
    pub fields: Seq<char>,
}

impl View for TransactionRequest {
    type V = RequestView;

    open spec fn view(&self) -> RequestView {
        RequestView { gas: self.gas, fields: self.fields@ }
    }
}

impl Clone for TransactionRequest {
    fn clone(&self) -> (r: Self)
        ensures
            r@ == self@,
    {
        TransactionRequest { gas: self.gas, fields: self.fields.clone() }
    }
}

impl Default for TransactionRequest {
    fn default() -> (r: Self)
        ensures
            r@ == (RequestView { gas: None, fields: "{}"@ }),
    {
        TransactionRequest { gas: None, fields: String::from_str("{}") }
    }
}

impl TransactionRequest {
    /// The same request with this gas limit.
    pub fn gas_limit(self, gas: u64) -> (r: Self)
        ensures
            r@ == (RequestView { gas: Some(gas), fields: self@.fields }),
    {
        TransactionRequest { gas: Some(gas), fields: self.fields }
    }

    /// The request itself.
    pub fn as_ref(&self) -> (r: &Self)
        ensures
            r == self,
    {
        self
    }
}

/// What is wrong with these bytes as a signed transaction, if anything: the text of the error that
/// `alloy_eips::Decodable2718::decode_2718_exact` returns for them.
pub uninterp spec fn transaction_fault(raw: Seq<u8>) -> Option<Seq<char>>;

/// The address that signed the transaction in these bytes, or the text of the error: what
/// `alloy_consensus::transaction::SignerRecoverable::recover_signer` returns for it.
pub uninterp spec fn signer_of(raw: Seq<u8>) -> Result<Seq<u8>, Seq<char>>;

/// The request that the transaction in these bytes stands for when this address sends it: what
/// `alloy_rpc_types::TransactionRequest::from_recovered_transaction` returns, with the fields beside
/// the gas limit as a JSON object.
pub uninterp spec fn request_of(raw: Seq<u8>, sender: Seq<u8>) -> RequestView;

/// Calls `alloy_eips::Decodable2718::decode_2718_exact` on an Ethereum transaction envelope, and
/// hands out the text of its error. The call reads nothing but the bytes.
#[verifier::external_body]
fn check_transaction(raw: &[u8]) -> (r: Result<(), String>)
    ensures
        match r {
            Ok(()) => transaction_fault(raw@) is None,
            Err(text) => transaction_fault(raw@) == Some(text@),
        },
{
    match EthereumTxEnvelope::<TxEip4844>::decode_2718_exact(raw) {
        Ok(_) => Ok(()),
        Err(err) => Err(err.to_string()),
    }
}

/// Calls `alloy_consensus::transaction::SignerRecoverable::recover_signer` on the transaction in the
/// bytes, and hands out the text of its error. The call reads nothing but the transaction.
#[verifier::external_body]
fn recover_signer(raw: &[u8]) -> (r: Result<Address, String>)
    requires
        transaction_fault(raw@) is None,
    ensures
        match r {
            Ok(sender) => signer_of(raw@) == Ok::<Seq<u8>, Seq<char>>(sender@),
            Err(text) => signer_of(raw@) == Err::<Seq<u8>, Seq<char>>(text@),
        },
{
    let tx = EthereumTxEnvelope::<TxEip4844>::decode_2718_exact(raw).expect("was decoded before");
    match tx.recover_signer() {
        Ok(sender) => Ok(sender.into_array()),
        Err(err) => Err(err.to_string()),
    }
}

/// Calls `alloy_rpc_types::TransactionRequest::from_recovered_transaction` on the transaction in the
/// bytes with this sender, and writes the fields beside the gas limit as JSON. The call reads
/// nothing but the transaction and the sender.
#[verifier::external_body]
fn from_recovered_transaction(raw: &[u8], sender: Address) -> (r: TransactionRequest)
    requires
        transaction_fault(raw@) is None,
    ensures
        r@ == request_of(raw@, sender@),
{
    let tx = EthereumTxEnvelope::<TxEip4844>::decode_2718_exact(raw).expect("was decoded before");
    let tx = Recovered::new_unchecked(tx, sender.into());
    let mut request = alloy_rpc_types::TransactionRequest::from_recovered_transaction(tx);
    let gas = request.gas.take();
    let fields = serde_json::to_string(&request).expect("every field has a JSON form");
    TransactionRequest { gas, fields }
}

/// The transaction in these bytes in the form in which it travels between nodes: what
/// `alloy_rlp::Encodable::encode` appends for it.
pub uninterp spec fn network_form(raw: Seq<u8>) -> Seq<u8>;

/// Calls `alloy_rlp::Encodable::encode` on the transaction in the bytes. The call reads nothing but
/// the transaction.
#[verifier::external_body]
fn network_encode(raw: &[u8]) -> (r: Vec<u8>)
    requires
        transaction_fault(raw@) is None,
    ensures
        r@ == network_form(raw@),
{
    let tx = EthereumTxEnvelope::<TxEip4844>::decode_2718_exact(raw).expect("was decoded before");
    let mut out = Vec::new();
    tx.encode(&mut out);
    out
}

/// The bytes by which a signed transaction is handed to a node: its network form, or the text of why
/// the bytes are no transaction.
pub fn raw_transaction_payload(raw: &[u8]) -> (r: Result<Vec<u8>, String>)
    ensures
        match r {
            Ok(bytes) => transaction_fault(raw@) is None && bytes@ == network_form(raw@),
            Err(text) => transaction_fault(raw@) == Some(text@),
        },
{
    match check_transaction(raw) {
        Ok(()) => Ok(network_encode(raw)),
        Err(text) => Err(text),
    }
}

/// What became of raw signed bytes.
#[derive(Debug, PartialEq, Eq)]
pub enum RawOutcome {
    /// They are no signed transaction, for this reason.
    Undecodable(String),
    /// Nobody can have signed the transaction, for this reason.
    Unsigned(String),
    /// They stand for this request.
    Request(TransactionRequest),
}

/// What a raw candidate is answered with, from what became of its bytes.
pub open spec fn raw_answer(outcome: RawOutcome) -> Result<RequestView, ErrorView> {
    match outcome {
        RawOutcome::Undecodable(text) => Err(
            ErrorView {
                code: INVALID_PARAMS_CODE,
                message: "invalid signed transaction: "@ + text@,
            },
        ),
        RawOutcome::Unsigned(text) => Err(
            ErrorView {
                code: INVALID_PARAMS_CODE,
                message: "invalid signer for signed transaction: "@ + text@,
            },
        ),
        RawOutcome::Request(request) => Ok(request@),
    }
}

/// Whether a result holds this view.
pub open spec fn answers(
    r: Result<TransactionRequest, ErrorObject>,
    v: Result<RequestView, ErrorView>,
) -> bool {
    match r {
        Ok(request) => v == Ok::<RequestView, ErrorView>(request@),
        Err(e) => v == Err::<RequestView, ErrorView>(e@),
    }
}

/// What a raw candidate is answered with, from what became of its bytes.
pub fn answer_raw(outcome: RawOutcome) -> (r: Result<TransactionRequest, ErrorObject>)
    ensures
        answers(r, raw_answer(outcome)),
{
    match outcome {
        RawOutcome::Undecodable(text) => Err(
            ErrorObject::owned(
                INVALID_PARAMS_CODE,
                join("invalid signed transaction: ", text.as_str()),
            ),
        ),
        RawOutcome::Unsigned(text) => Err(
            ErrorObject::owned(
                INVALID_PARAMS_CODE,
                join("invalid signer for signed transaction: ", text.as_str()),
            ),
        ),
        RawOutcome::Request(request) => Ok(request),
    }
}

/// The request that a candidate stands for, or the error that it is refused with: a request stands
/// for itself, raw bytes for what their transaction and its signer give.
pub open spec fn candidate(transaction: SimulationTxInput<TransactionRequest>) -> Result<
    RequestView,
    ErrorView,
> {
    match transaction {
        SimulationTxInput::Request(request) => Ok(request@),
        SimulationTxInput::Raw { raw_tx } => match transaction_fault(raw_tx@) {
            Some(text) => Err(
                ErrorView {
                    code: INVALID_PARAMS_CODE,
                    message: "invalid signed transaction: "@ + text,
                },
            ),
            None => match signer_of(raw_tx@) {
                Err(text) => Err(
                    ErrorView {
                        code: INVALID_PARAMS_CODE,
                        message: "invalid signer for signed transaction: "@ + text,
                    },
                ),
                Ok(sender) => Ok(request_of(raw_tx@, sender)),
            },
        },
    }
}

/// The request that a candidate stands for, or the error that it is refused with.
pub fn decode_candidate_transaction(transaction: SimulationTxInput<TransactionRequest>) -> (r:
    Result<TransactionRequest, ErrorObject>)
    ensures
        answers(r, candidate(transaction)),
        transaction matches SimulationTxInput::Request(request) ==> r == Ok::<
            TransactionRequest,
            ErrorObject,
        >(request),
{
    match transaction {
        SimulationTxInput::Request(request) => Ok(request),
        SimulationTxInput::Raw { raw_tx } => {
            let outcome = match check_transaction(raw_tx.as_slice()) {
                Err(text) => RawOutcome::Undecodable(text),
                Ok(()) => match recover_signer(raw_tx.as_slice()) {
                    Err(text) => RawOutcome::Unsigned(text),
                    Ok(sender) => RawOutcome::Request(
                        from_recovered_transaction(raw_tx.as_slice(), sender),
                    ),
                },
            };
            answer_raw(outcome)
        },
    }
}

/// A request stands for itself. Raw bytes that are no transaction, or whose signer cannot be had, are
/// refused as invalid parameters, with the reason behind fixed words; any others stand for the
/// request that their transaction and its signer give.
pub proof fn law_candidate(request: TransactionRequest, raw_tx: Vec<u8>)
    ensures
        candidate(SimulationTxInput::Request(request)) == Ok::<RequestView, ErrorView>(
            RequestView { gas: request.gas, fields: request.fields@ },
        ),
        transaction_fault(raw_tx@) matches Some(text) ==> (candidate(
            SimulationTxInput::Raw { raw_tx },
        ) matches Err(e) && e.code == -32602 && e.message == "invalid signed transaction: "@
            + text),
        transaction_fault(raw_tx@) is None ==> (signer_of(raw_tx@) matches Err(text) ==> (
        candidate(SimulationTxInput::Raw { raw_tx }) matches Err(e) && e.code == -32602 && e.message
            == "invalid signer for signed transaction: "@ + text)),
        transaction_fault(raw_tx@) is None ==> (signer_of(raw_tx@) matches Ok(sender) ==> candidate(
            SimulationTxInput::Raw { raw_tx },
        ) == Ok::<RequestView, ErrorView>(request_of(raw_tx@, sender))),
{
}

/// What became of raw bytes decides what is answered: the request that they stand for, or invalid
/// parameters with the reason behind fixed words.
pub proof fn law_raw_answer(
    outcome: RawOutcome,
    r: Result<TransactionRequest, ErrorObject>,
)
    requires
        answers(r, raw_answer(outcome)),
    ensures
        outcome matches RawOutcome::Request(request) ==> (r matches Ok(q) && q.gas == request.gas
            && q.fields@ == request.fields@),
        outcome matches RawOutcome::Undecodable(text) ==> (r matches Err(e) && e.code == -32602
            && e.message@ == "invalid signed transaction: "@ + text@),
        outcome matches RawOutcome::Unsigned(text) ==> (r matches Err(e) && e.code == -32602
            && e.message@ == "invalid signer for signed transaction: "@ + text@),
{
}

/// A candidate that is decoded is what it stands for, and one that is refused is refused for its own
/// reason.
pub proof fn law_decoded(
    transaction: SimulationTxInput<TransactionRequest>,
    r: Result<TransactionRequest, ErrorObject>,
)
    requires
        answers(r, candidate(transaction)),
    ensures
        r is Ok <==> candidate(transaction) is Ok,
        r matches Ok(q) ==> (candidate(transaction) matches Ok(v) && q.gas == v.gas && q.fields@
            == v.fields),
        r matches Err(e) ==> (candidate(transaction) matches Err(v) && e.code == v.code
            && e.message@ == v.message),
        transaction matches SimulationTxInput::Request(request) ==> (r matches Ok(q) && q.gas
            == request.gas && q.fields@ == request.fields@),
{
}

} // verus!
