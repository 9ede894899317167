//! Typed errors of the tracer: client-class conditions (not found,
//! malformed input) stay distinguishable from server-class persistence
//! failures.

use vstd::prelude::*;
use crate::types::Hash256;

verus! {

/// Failures of the persistence layer. Distinct from "not found".
#[derive(Clone, Copy, Debug, PartialEq, Eq, Structural)]
pub enum DatabaseError {
    FailedToInsertTrace,
    FailedToDeleteTrace,
    FailedToGetTrace,
    FailedToCreateTables,
    /// A stored trace blob could not be decoded on read.
    FailedToDecodeTrace,
}

/// Errors of the trace-query surface.
#[derive(Clone, Copy, Debug, PartialEq, Eq, Structural)]
pub enum ZeroApiError {
    TraceNotFoundForBlockNumber(u64),
    TraceNotFoundForBlockHash(Hash256),
    DatabaseError(DatabaseError),
    /// A query named a symbolic block tag instead of a literal number.
    UnsupportedBlockTag,
}

/// How an error is reported to a remote caller: as a complaint about the
/// request, or as an internal failure without further detail.
#[derive(Clone, Copy, Debug, PartialEq, Eq, Structural)]
pub enum RpcErrorClass {
    InvalidParams,
    Internal,
}

impl ZeroApiError {
    /// Not-found and malformed-input conditions are client-class; everything
    /// else is reported as a generic internal error.
    pub fn rpc_class(&self) -> (c: RpcErrorClass)
        ensures
            c == (match *self {
                ZeroApiError::DatabaseError(_) => RpcErrorClass::Internal,
                _ => RpcErrorClass::InvalidParams,
            }),
    {
        match self {
            ZeroApiError::DatabaseError(_) => RpcErrorClass::Internal,
            _ => RpcErrorClass::InvalidParams,
        }
    }
}

} // verus!
