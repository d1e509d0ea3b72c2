//! The status that an RPC answers with when it fails.
use vstd::prelude::*;

verus! {

/// The status codes that the daemon's services answer with.
#[derive(Clone, Copy, Debug, PartialEq, Eq, Structural)]
pub enum RpcCode {
    InvalidArgument,
    NotFound,
    AlreadyExists,
    PermissionDenied,
    Unauthenticated,
    ResourceExhausted,
    FailedPrecondition,
    Internal,
    Unavailable,
    Unimplemented,
}

/// An RPC status: a code and a message.
#[derive(Debug)]
pub struct RpcStatus {
    pub code: RpcCode,
    pub message: String,
}

impl RpcStatus {
    /// A status with the given code and message.
    pub fn new(code: RpcCode, message: &str) -> (r: Self)
        ensures
            r.code == code,
            r.message@ == message@,
    {
        RpcStatus { code, message: message.to_owned() }
    }
}

} // verus!
