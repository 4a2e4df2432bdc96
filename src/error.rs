//! Errors of the column store.
use vstd::prelude::*;

verus! {

/// The failures that reach a column's owner. An absent key is not among
/// them: operations report it as `None`.
#[derive(Debug, Clone, Copy, PartialEq, Eq)]
pub enum Error {
    /// The schema fingerprint or the record width in a log header differs
    /// from the column's own.
    SchemaMismatch,
    /// A log could not be read or written: too short to hold a header, or a
    /// failure of the file underneath.
    LogIO,
}

} // verus!
