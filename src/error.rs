//! The errors of the authentication core.
use vstd::prelude::*;

verus! {

/// Why an authentication operation did not succeed.
#[derive(Clone, Copy, Debug, PartialEq, Eq, Structural)]
pub enum AuthError {
    /// Malformed or missing input.
    Validation,
    /// The email or the username is already in use.
    Conflict,
    /// Bad credentials, or a token that is not valid.
    Unauthorized,
    /// A token past its expiry.
    Expired,
    /// Hashing, signing, or the clock failed.
    Internal,
}

} // verus!
