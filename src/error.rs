//! The error taxonomy of the order and payment services.
use vstd::prelude::*;

verus! {

/// Why a service operation was refused. Each variant carries a message for
/// humans; callers branch on the variant.
#[derive(Debug)]
pub enum ServiceError {
    /// An order, payment or item id does not resolve.
    NotFound(String),
    /// Malformed or inconsistent input: an empty item list, a zero quantity,
    /// a total out of range, a transition outside the state machine.
    Validation(String),
    /// The store refused a write (a duplicate key).
    DatabaseError(String),
    /// The caller is not authenticated.
    Unauthorized(String),
    /// The caller lacks the role or ownership for the action.
    Forbidden(String),
    /// An unexpected internal failure.
    InternalServerError,
    /// Any other failure.
    GenericError(String),
    /// A user id does not resolve.
    UserNotFound(String),
    /// A password did not match.
    InvalidPassword,
    /// The payment gateway was unreachable, refused the request or timed out.
    GatewayError(String),
}

} // verus!
