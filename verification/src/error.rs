//! The error type of the library.
use vstd::prelude::*;

verus! {

/// What kind of failure an error reports.
#[derive(Debug, Clone, Copy, PartialEq, Eq, Structural)]
pub enum ErrorCode {
    CodexRunning,
    PackageInvalid,
    ProjectConflict,
    RestoreFailed,
    RollbackFailed,
}

/// A failure, with a message for the user.
#[derive(Debug, Clone, PartialEq, Eq)]
pub struct RehomeError {
    pub code: ErrorCode,
    pub message: String,
}

impl RehomeError {
    /// An error with the given code and message.
    pub fn new(code: ErrorCode, message: &str) -> (r: RehomeError)
        ensures
            r.code == code,
            r.message@ == message@,
    {
        RehomeError { code, message: String::from_str(message) }
    }
}

/// The message of a file-system error that happened at `stage`: the stage,
/// `: `, and the error's own message.
pub fn io_stage(stage: &str, error: &str) -> (r: String)
    ensures
        r@ == stage@ + ": "@ + error@,
{
    let mut message = String::from_str(stage);
    message.append(": ");
    message.append(error);
    message
}

} // verus!
