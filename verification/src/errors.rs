//! The error kinds every store operation can report.

use vstd::prelude::*;

verus! {

/// The flat set of failures a graph operation can report. The transport
/// layer alone translates each kind into an outward status; the core never
/// formats status codes itself.
#[derive(Debug)]
pub enum AppError {
    /// A referenced username does not exist; carries the offending name.
    UserNotFound(String),
    /// The username of a user being added is already taken; carries the name.
    UserAlreadyExists(String),
    /// A connection could not be formed for a reason other than a missing
    /// endpoint; carries a descriptive message. Kept as a defensive guard.
    ConnectionFailed(String),
    /// A lock or other process-level facility failed; carries a message.
    InternalError(String),
}

pub type AppResult<T> = Result<T, AppError>;

} // verus!
