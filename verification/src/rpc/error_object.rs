//! The error that a JSON-RPC method answers with.
use vstd::prelude::*;

verus! {

/// The code of an error that lies in a method's parameters.
pub const INVALID_PARAMS_CODE: i32 = -32602;

/// A JSON-RPC error: a code and a message, without further data.
#[derive(Debug, PartialEq, Eq)]
pub struct ErrorObject {
    pub code: i32,
    pub message: String,
}

/// What an [`ErrorObject`] holds.
pub struct ErrorView {
    pub code: i32,
    pub message: Seq<char>,
}

impl View for ErrorObject {
    type V = ErrorView;

    open spec fn view(&self) -> ErrorView {
        ErrorView { code: self.code, message: self.message@ }
    }
}

impl Clone for ErrorObject {
    fn clone(&self) -> (r: Self)
        ensures
            r@ == self@,
    {
        ErrorObject { code: self.code, message: self.message.clone() }
    }
}

impl ErrorObject {
    /// An error with this code and message.
    pub fn owned(code: i32, message: String) -> (r: ErrorObject)
        ensures
            r@ == (ErrorView { code, message: message@ }),
    {
        ErrorObject { code, message }
    }
}

} // verus!
