//! What can go wrong in the store and its queries.

use vstd::prelude::*;

verus! {

/// The ways in which an operation of the store can fail.
#[derive(Clone, Copy, Debug, PartialEq, Eq, Structural)]
pub enum StoreError {
    /// A habit of that name exists already.
    Conflict,
    /// No habit has that name, or that identifier.
    NotFound,
    /// The text does not read as a date in the canonical form.
    ParseError,
    /// The store cannot take the row: no identifier is left for it.
    StorageUnavailable,
}

} // verus!
