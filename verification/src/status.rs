//! The structured error reported by the server end of an RPC: a numeric gRPC
//! status code plus a short message.

use vstd::prelude::*;

verus! {

/// The standard gRPC status codes that this library produces or inspects.
pub const CODE_OK: i32 = 0;

pub const CODE_CANCELLED: i32 = 1;

pub const CODE_UNKNOWN: i32 = 2;

pub const CODE_INVALID_ARGUMENT: i32 = 3;

pub const CODE_NOT_FOUND: i32 = 5;

pub const CODE_UNIMPLEMENTED: i32 = 12;

pub const CODE_INTERNAL: i32 = 13;

pub const CODE_UNAVAILABLE: i32 = 14;

/// A gRPC status: a code and a human-readable message.
#[derive(Debug, PartialEq)]
pub struct Status {
    pub code: i32,
    pub message: String,
}

impl Status {
    /// A status with the given code and message.
    pub fn new(code: i32, message: String) -> (r: Status)
        ensures
            r.code == code,
            r.message == message,
    {
        Status { code, message }
    }

    /// An `INVALID_ARGUMENT` status, as a rejected encode reports it.
    pub fn invalid_argument(message: String) -> (r: Status)
        ensures
            r.code == CODE_INVALID_ARGUMENT,
            r.message == message,
    {
        Status { code: CODE_INVALID_ARGUMENT, message }
    }

    /// An `INTERNAL` status, as a failed decode reports it.
    pub fn internal(message: String) -> (r: Status)
        ensures
            r.code == CODE_INTERNAL,
            r.message == message,
    {
        Status { code: CODE_INTERNAL, message }
    }

    /// Whether this status carries the `NOT_FOUND` code.
    pub fn is_not_found(&self) -> (r: bool)
        ensures
            r == (self.code == CODE_NOT_FOUND),
    {
        self.code == CODE_NOT_FOUND
    }
}

} // verus!
