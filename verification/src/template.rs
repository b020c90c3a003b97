//! The example handlers of the project template and their parameter and
//! result types.
use vstd::prelude::*;

verus! {

/// Parameters of `add`.
#[derive(Debug, Clone, Copy, PartialEq, Eq, Structural)]
pub struct AddParams {
    pub a: i32,
    pub b: i32,
}

/// Result of `add`.
#[derive(Debug, Clone, Copy, PartialEq, Eq, Structural)]
pub struct AddResult {
    pub sum: i32,
}

/// Parameters of `echo`.
#[derive(Debug, Clone, PartialEq, Eq)]
pub struct EchoParams {
    pub message: String,
}

/// Result of `echo`.
#[derive(Debug, Clone, PartialEq, Eq)]
pub struct EchoResult {
    pub message: String,
}

/// Parameters of `status` (none).
#[derive(Debug, Clone, Copy, PartialEq, Eq, Structural)]
pub struct StatusParams {}

/// Result of `status`.
#[derive(Debug, Clone, PartialEq, Eq)]
pub struct StatusResult {
    pub status: String,
    pub uptime_seconds: u64,
}

/// Adds the two numbers.
pub fn add_handler(params: AddParams) -> (r: AddResult)
    requires
        i32::MIN <= params.a + params.b <= i32::MAX,
    ensures
        r.sum == params.a + params.b,
{
    AddResult { sum: params.a + params.b }
}

/// Sends the message back.
pub fn echo_handler(params: EchoParams) -> (r: EchoResult)
    ensures
        r.message == params.message,
{
    EchoResult { message: params.message }
}

/// Reports the server as running, up for `uptime_seconds`.
pub fn status_handler(_params: StatusParams, uptime_seconds: u64) -> (r: StatusResult)
    ensures
        r.status@ == "running"@,
        r.uptime_seconds == uptime_seconds,
{
    StatusResult { status: "running".to_owned(), uptime_seconds }
}

} // verus!
