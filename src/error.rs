//! Domain errors.

use vstd::prelude::*;

verus! {

/// The domain errors that every operation of the engine reports.
#[derive(Clone, Copy, Debug, PartialEq, Eq, Structural)]
pub enum ApiError {
    /// Unknown group, member, role, invite or request.
    NotFound,
    /// Invalid transition or invalid input.
    BadRequest,
    /// Name collision or repeated request.
    Duplicate,
    /// Missing permission or unmet gating requirement.
    Unauthorized,
    /// Operation not valid for the given storage shape.
    Unsupported,
}

} // verus!
