//! The transaction that a simulation is asked for: either raw signed bytes or the fields of a
//! request.
//!
//! In JSON a raw transaction is an object whose only field is `rawTx`. Any other value is a request.
use crate::text::same_text;
use vstd::prelude::*;
use vstd::string::*;

verus! {

/// Transaction input accepted by the simulation endpoints.
#[derive(Debug, Clone, PartialEq)]
pub enum SimulationTxInput<TxReq> {
    /// Raw signed transaction bytes.
    Raw {
        /// Signed EIP-2718-encoded transaction bytes.
        raw_tx: Vec<u8>,
    },
    /// Unsigned transaction request fields.
    Request(TxReq),
}

/// A JSON value, of which only the fields of an object matter here.
#[derive(Debug, Clone, PartialEq)]
pub enum JsonInput<V> {
    /// An object, with its fields in order.
    Object(Vec<(String, V)>),
    /// Any other value.
    Other(V),
}

/// Why a JSON value is no transaction input.
#[derive(Debug, Clone, PartialEq, Eq)]
pub enum TxInputError<E> {
    /// A raw transaction stands beside the fields of a request.
    Combined,
    /// The bytes or the request could not be read.
    Invalid(E),
}

/// What a JSON value is to be read as.
pub enum Route<V> {
    /// Raw bytes, from this value.
    Raw(V),
    /// A request, from the whole value.
    Request,
    /// Neither: a raw transaction stands beside other fields.
    Combined,
}

/// Whether a field is called `rawTx`.
pub open spec fn has_raw_field<V>(fields: Seq<(String, V)>) -> bool {
    exists|i: int| 0 <= i < fields.len() && (#[trigger] fields[i]).0@ == "rawTx"@
}

/// What a JSON value is to be read as.
pub open spec fn route<V>(value: JsonInput<V>) -> Route<V> {
    match value {
        JsonInput::Object(fields) => if !has_raw_field(fields@) {
            Route::Request
        } else if fields@.len() == 1 {
            Route::Raw(fields@[0].1)
        } else {
            Route::Combined
        },
        JsonInput::Other(_) => Route::Request,
    }
}

/// Whether this value is what a raw input with these contents is written as.
pub open spec fn raw_object<V>(value: JsonInput<V>, contents: V) -> bool {
    value matches JsonInput::Object(fields) && fields@.len() == 1 && fields@[0].0@ == "rawTx"@
        && fields@[0].1 == contents
}

/// What a raw input is written as is read as a raw input, from the same contents.
pub proof fn law_raw_input_read_back<V>(value: JsonInput<V>, contents: V)
    requires
        raw_object(value, contents),
    ensures
        route(value) == Route::Raw(contents),
{
    if let JsonInput::Object(fields) = value {
        assert(fields@[0].0@ == "rawTx"@);
    }
}

/// The only values that are read as a raw input are those that one is written as.
pub proof fn law_raw_input_form<V>(value: JsonInput<V>, contents: V)
    requires
        route(value) == Route::Raw(contents),
    ensures
        raw_object(value, contents),
{
}

impl<E> TxInputError<E> {
    /// What the error says, if the reason does not come from reading the bytes or the request.
    pub fn message(&self) -> (r: Option<&'static str>)
        ensures
            self is Combined ==> r == Some(
                "rawTx cannot be combined with transaction request fields",
            ),
            self is Invalid ==> r is None,
    {
        match self {
            TxInputError::Combined => Some(
                "rawTx cannot be combined with transaction request fields",
            ),
            TxInputError::Invalid(_) => None,
        }
    }
}

fn find_raw_field<V>(fields: &Vec<(String, V)>) -> (r: bool)
    ensures
        r == has_raw_field(fields@),
{
    let mut i: usize = 0;
    while i < fields.len()
        invariant
            i <= fields@.len(),
            forall|j: int| 0 <= j < i ==> (#[trigger] fields@[j]).0@ != "rawTx"@,
        decreases fields@.len() - i,
    {
        if same_text(fields[i].0.as_str(), "rawTx") {
            return true;
        }
        i += 1;
    }
    false
}

impl<TxReq> SimulationTxInput<TxReq> {
    /// Creates a raw transaction input.
    pub fn raw(raw_tx: Vec<u8>) -> (r: Self)
        ensures
            r == (SimulationTxInput::<TxReq>::Raw { raw_tx }),
    {
        SimulationTxInput::Raw { raw_tx }
    }

    /// Creates a request input.
    pub fn request(request: TxReq) -> (r: Self)
        ensures
            r == SimulationTxInput::Request(request),
    {
        SimulationTxInput::Request(request)
    }

    /// Writes the input as a JSON value, by `bytes` for raw bytes and by `request` for a request.
    pub fn serialize<V, B, Q>(self, bytes: B, request: Q) -> (r: JsonInput<V>) where
        B: FnOnce(Vec<u8>) -> V,
        Q: FnOnce(TxReq) -> JsonInput<V>,

        requires
            self matches SimulationTxInput::Raw { raw_tx } ==> bytes.requires((raw_tx,)),
            self matches SimulationTxInput::Request(q) ==> request.requires((q,)),
        ensures
            self matches SimulationTxInput::Raw { raw_tx } ==> exists|v: V|
                #[trigger] bytes.ensures((raw_tx,), v) && raw_object(r, v),
            self matches SimulationTxInput::Request(q) ==> request.ensures((q,), r),
    {
        match self {
            SimulationTxInput::Raw { raw_tx } => {
                let v = bytes(raw_tx);
                let fields = vec![(String::from_str("rawTx"), v)];
                JsonInput::Object(fields)
            },
            SimulationTxInput::Request(q) => request(q),
        }
    }

    /// Reads the input from a JSON value, by `bytes` for the contents of `rawTx` and by `request`
    /// for a request.
    pub fn deserialize<V, E, B, Q>(value: JsonInput<V>, bytes: B, request: Q) -> (r: Result<
        Self,
        TxInputError<E>,
    >) where
        B: FnOnce(V) -> Result<Vec<u8>, E>,
        Q: FnOnce(JsonInput<V>) -> Result<TxReq, E>,

        requires
            route(value) matches Route::Raw(v) ==> bytes.requires((v,)),
            route(value) is Request ==> request.requires((value,)),
        ensures
            match route(value) {
                Route::Combined => r == Err::<Self, TxInputError<E>>(TxInputError::Combined),
                Route::Raw(v) => exists|b: Result<Vec<u8>, E>| #[trigger]
                    bytes.ensures((v,), b) && r == (match b {
                        Ok(raw_tx) => Ok::<Self, TxInputError<E>>(
                            SimulationTxInput::Raw { raw_tx },
                        ),
                        Err(e) => Err(TxInputError::Invalid(e)),
                    }),
                Route::Request => exists|q: Result<TxReq, E>| #[trigger]
                    request.ensures((value,), q) && r == (match q {
                        Ok(req) => Ok::<Self, TxInputError<E>>(SimulationTxInput::Request(req)),
                        Err(e) => Err(TxInputError::Invalid(e)),
                    }),
            },
    {
        match value {
            JsonInput::Object(mut fields) => {
                if find_raw_field(&fields) {
                    if fields.len() != 1 {
                        return Err(TxInputError::Combined);
                    }
                    let (_, contents) = fields.remove(0);
                    match bytes(contents) {
                        Ok(raw_tx) => Ok(SimulationTxInput::raw(raw_tx)),
                        Err(e) => Err(TxInputError::Invalid(e)),
                    }
                } else {
                    match request(JsonInput::Object(fields)) {
                        Ok(req) => Ok(SimulationTxInput::request(req)),
                        Err(e) => Err(TxInputError::Invalid(e)),
                    }
                }
            },
            JsonInput::Other(v) => match request(JsonInput::Other(v)) {
                Ok(req) => Ok(SimulationTxInput::request(req)),
                Err(e) => Err(TxInputError::Invalid(e)),
            },
        }
    }
}

/// An object is read as raw bytes exactly if `rawTx` is its only field, and from the contents of that
/// field. With any other field beside it the object is refused. An object without it, and any value
/// that is no object, is read as a request.
pub proof fn law_route<V>(fields: Vec<(String, V)>, other: V)
    ensures
        (forall|i: int| 0 <= i < fields@.len() ==> (#[trigger] fields@[i]).0@ != "rawTx"@) ==> route(
            JsonInput::Object(fields),
        ) is Request,
        fields@.len() == 1 && fields@[0].0@ == "rawTx"@ ==> route(JsonInput::Object(fields))
            == Route::Raw(fields@[0].1),
        fields@.len() > 1 && (exists|i: int|
            0 <= i < fields@.len() && (#[trigger] fields@[i]).0@ == "rawTx"@) ==> route(
            JsonInput::Object(fields),
        ) is Combined,
        route(JsonInput::Other(other)) is Request,
{
}

/// What a raw input is written as: an object with `rawTx` as its only field.
pub proof fn law_raw_object<V>(fields: Vec<(String, V)>, contents: V, other: V)
    ensures
        raw_object(JsonInput::Object(fields), contents) <==> fields@.len() == 1 && fields@[0].0@
            == "rawTx"@ && fields@[0].1 == contents,
        !raw_object(JsonInput::Other(other), contents),
{
}

} // verus!
