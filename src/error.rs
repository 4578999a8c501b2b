use vstd::prelude::*;

verus! {

/// The failures an operation of the service can report.
#[derive(Clone, Copy, Debug, PartialEq, Eq, Structural)]
pub enum ServiceError {
    /// Malformed input, such as a date that is not `YYYY-MM-DD`.
    BadRequest,
    /// Missing or unmatched session token, or wrong credentials.
    Unauthorized,
    /// The key is taken: a username, or a note's date.
    Conflict,
    /// The targeted note does not exist.
    NotFound,
    /// A snapshot that fails structural validation.
    Malformed,
    /// An internal failure (an exhausted identifier range, a failed hash).
    Internal,
}

} // verus!
