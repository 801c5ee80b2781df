//! What can go wrong in validation.

use vstd::prelude::*;

use crate::primitives::AuthorityId;

verus! {

/// An error of validation or of block authorship.
#[derive(Debug, PartialEq, Eq)]
pub enum Error {
    /// The client or its runtime failed, with the given message.
    Client(String),
    /// The duty roster does not hold one duty for each authority.
    InvalidDutyRosterLength {
        /// The number of authorities.
        expected: usize,
        /// The number of duties in the roster.
        got: usize,
    },
    /// The local key is not among the authorities.
    NotValidator(AuthorityId),
    /// Inherent data could not be read or written, with the given message.
    InherentError(String),
    /// A timer failed, with the given message.
    Timer(String),
}

} // verus!
