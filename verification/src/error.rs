//! Failure signals for net operations that touch the shared component
//! registry. Pure value operations on a net never fail.

use vstd::prelude::*;

verus! {

/// Why a registry-touching net operation could not complete.
#[derive(Debug, Clone, Copy, PartialEq, Eq, Structural)]
pub enum LogicError {
    /// The net's own identity has not been assigned yet, so it cannot tell a
    /// neighbor component "bind to me".
    InvalidNet,
    /// The shared registry is gone (its owner tore it down) or its write
    /// lock could not be acquired without blocking.
    InvalidArena,
    /// The referenced component identity does not resolve to a live registry
    /// entry: never inserted, or removed so the generation no longer matches.
    InvalidComponent,
}

impl LogicError {
    /// A short description of the failure, for callers that report it.
    pub fn describe(self) -> (r: &'static str)
        ensures
            self == LogicError::InvalidNet ==> r@ == "net identity is not set"@,
            self == LogicError::InvalidArena ==> r@ == "component registry unavailable"@,
            self == LogicError::InvalidComponent ==> r@ == "stale component identity"@,
    {
        match self {
            LogicError::InvalidNet => "net identity is not set",
            LogicError::InvalidArena => "component registry unavailable",
            LogicError::InvalidComponent => "stale component identity",
        }
    }
}

/// Result of an operation that may fail against the shared registry.
pub type LogicResult<T> = Result<T, LogicError>;

} // verus!
