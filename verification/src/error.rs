//! The ways an operation can be rejected. Every error is detected before the
//! store performs its first write, so a rejected operation changes nothing.

use vstd::prelude::*;

verus! {

#[derive(Clone, Copy, Debug, PartialEq, Eq, Structural)]
pub enum Error {
    /// The caller asked to create a record with a price of zero.
    InvalidPrice,
    /// The creation counter has reached its maximum and cannot count one more.
    StorageOverflow,
    /// A record with the given identifier already exists.
    DuplicateId,
    /// No record with the given identifier exists.
    RecordNotFound,
    /// The caller does not currently own the record it asked to transfer.
    NotOwner,
    /// The destination account failed identity validation. Reserved for
    /// boundaries with a richer account type; never produced here, where
    /// every account identifier is valid.
    InvalidAccount,
}

} // verus!
