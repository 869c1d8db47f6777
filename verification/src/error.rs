//! The ways in which an operation on an interrupt line can be refused.

use vstd::prelude::*;

verus! {

/// Why the scheme refused a request.
#[derive(Clone, Copy, Debug, PartialEq, Eq, Structural)]
pub enum Error {
    /// The path names no interrupt line: it is not a decimal number, or the
    /// number lies beyond the counter table.
    NotFound,
    /// The operation is never allowed on an interrupt line handle.
    PermissionDenied,
    /// The payload buffer cannot hold one machine word.
    InvalidArgument,
}

} // verus!
