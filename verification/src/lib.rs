//! A verified persistence model for a single "customer" collection.
//!
//! The crate models a document collection as an in-memory store with five
//! operations (paginated list, lookup, create, update, delete), a 12-byte
//! document identifier with its canonical hexadecimal text form, and
//! wall-clock timestamp stamping on writes.

use vstd::prelude::*;

pub mod customer;
pub mod laws;
pub mod oid;
pub mod repo;
pub mod time;

verus! {

/// The failures an operation can report. Absence of a document is never an
/// error: lookups, updates and deletes signal it with `None` instead.
#[derive(Clone, Copy, Debug, PartialEq, Eq, Structural)]
pub enum RepoError {
    /// A caller-supplied identifier string is not 24 hexadecimal digits.
    MalformedId,
    /// A listing was asked for with a limit or page below one, or a page so
    /// far out that the skip count cannot be represented.
    InvalidPagination,
    /// An insert was asked to store an identifier that is already present.
    DuplicateId,
}

} // verus!
