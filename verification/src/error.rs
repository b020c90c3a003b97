//! Errors of the server and the JSON-RPC 2.0 error objects sent to clients.
use vstd::prelude::*;

use crate::text::{concat_str, push_char};

verus! {

/// The errors of the server.
#[derive(Debug, Clone, PartialEq, Eq)]
pub enum ServerError {
    /// Reading or writing failed
    Io(String),
    /// A value could not be encoded or decoded
    Serialization(String),
    /// The WebSocket layer failed
    WebSocket(String),
    /// The connection is closed
    ConnectionClosed,
    /// No handler for the method
    MethodNotFound(String),
    /// The parameters are not what the method takes
    InvalidParams(String),
    /// The request is not acceptable
    InvalidRequest(String),
    /// Any other failure
    Internal(String),
}

/// The text of an error.
pub open spec fn error_message(e: ServerError) -> Seq<char> {
    match e {
        ServerError::Io(m) => "IO error: "@ + m@,
        ServerError::Serialization(m) => "Serialization error: "@ + m@,
        ServerError::WebSocket(m) => "WebSocket error: "@ + m@,
        ServerError::ConnectionClosed => "Connection closed"@,
        ServerError::MethodNotFound(m) => "Method not found: "@ + m@,
        ServerError::InvalidParams(m) => "Invalid params: "@ + m@,
        ServerError::InvalidRequest(m) => "Invalid request: "@ + m@,
        ServerError::Internal(m) => "Internal error: "@ + m@,
    }
}

impl ServerError {
    /// The human-readable description of this error.
    pub fn to_string(&self) -> (s: String)
        ensures
            s@ == error_message(*self),
    {
        match self {
            ServerError::Io(m) => concat_str("IO error: ", m.as_str()),
            ServerError::Serialization(m) => concat_str("Serialization error: ", m.as_str()),
            ServerError::WebSocket(m) => concat_str("WebSocket error: ", m.as_str()),
            ServerError::ConnectionClosed => "Connection closed".to_owned(),
            ServerError::MethodNotFound(m) => concat_str("Method not found: ", m.as_str()),
            ServerError::InvalidParams(m) => concat_str("Invalid params: ", m.as_str()),
            ServerError::InvalidRequest(m) => concat_str("Invalid request: ", m.as_str()),
            ServerError::Internal(m) => concat_str("Internal error: ", m.as_str()),
        }
    }
}

/// JSON-RPC 2.0 error code: the request is not a valid request.
pub const INVALID_REQUEST: i64 = -32600;

/// JSON-RPC 2.0 error code: the method does not exist.
pub const METHOD_NOT_FOUND: i64 = -32601;

/// JSON-RPC 2.0 error code: invalid method parameters.
pub const INVALID_PARAMS: i64 = -32602;

/// JSON-RPC 2.0 error code: internal error.
pub const INTERNAL_ERROR: i64 = -32603;

/// The error object of a JSON-RPC 2.0 error response.
#[derive(Debug, Clone, PartialEq, Eq)]
pub struct RpcErrorData {
    pub code: i64,
    pub message: String,
}

/// The decimal digits of `n`, without leading zeros.
pub open spec fn decimal(n: nat) -> Seq<char>
    decreases n,
{
    if n < 10 {
        seq![digit_char_of(n)]
    } else {
        decimal(n / 10).push(digit_char_of(n % 10))
    }
}

/// The character of a decimal digit.
pub open spec fn digit_char_of(d: nat) -> char {
    crate::storage::digit_of(d)
}

/// Appends the decimal digits of `n` to `out`.
fn push_decimal(n: usize, out: &mut String)
    ensures
        final(out)@ == old(out)@ + decimal(n as nat),
    decreases n,
{
    if n >= 10 {
        push_decimal(n / 10, out);
    }
    let c = crate::storage::digit_char((n % 10) as u64);
    push_char(out, c);
    if n >= 10 {
        assert(old(out)@ + decimal(n as nat) =~= old(out)@ + decimal((n / 10) as nat) + seq![c]);
    } else {
        assert(old(out)@ + decimal(n as nat) =~= old(out)@ + seq![c]);
    }
}

impl RpcErrorData {
    /// An invalid-request error with the given message.
    pub fn invalid_request(message: &str) -> (e: Self)
        ensures
            e.code == INVALID_REQUEST,
            e.message@ == message@,
    {
        RpcErrorData { code: INVALID_REQUEST, message: message.to_owned() }
    }

    /// A method-not-found error for `method`.
    pub fn method_not_found(method: &str) -> (e: Self)
        ensures
            e.code == METHOD_NOT_FOUND,
            e.message@ == "Method not found: "@ + method@,
    {
        RpcErrorData { code: METHOD_NOT_FOUND, message: concat_str("Method not found: ", method) }
    }

    /// An invalid-params error with the given message.
    pub fn invalid_params(message: &str) -> (e: Self)
        ensures
            e.code == INVALID_PARAMS,
            e.message@ == message@,
    {
        RpcErrorData { code: INVALID_PARAMS, message: message.to_owned() }
    }

    /// An internal error with the given message.
    pub fn internal_error(message: &str) -> (e: Self)
        ensures
            e.code == INTERNAL_ERROR,
            e.message@ == message@,
    {
        RpcErrorData { code: INTERNAL_ERROR, message: message.to_owned() }
    }

    /// The error for a batch of `actual` messages over the limit of `max`.
    pub fn batch_size_exceeded(max: usize, actual: usize) -> (e: Self)
        ensures
            e.code == INVALID_REQUEST,
            e.message@ == "Batch size limit exceeded: "@ + decimal(actual as nat) + " > "@
                + decimal(max as nat),
    {
        let mut message = "Batch size limit exceeded: ".to_owned();
        push_decimal(actual, &mut message);
        let with_sep = concat_str(message.as_str(), " > ");
        let mut message = with_sep;
        push_decimal(max, &mut message);
        RpcErrorData { code: INVALID_REQUEST, message }
    }
}

} // verus!
