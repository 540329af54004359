//! Failures that the index reports.

use vstd::prelude::*;

verus! {

/// The package table could not be used.
#[derive(Clone, Copy, Debug, PartialEq, Eq, Structural)]
pub enum StoreError {
    /// The durable table is unreachable or corrupt.
    IOFailure,
}

/// A reindex did not go through.
#[derive(Clone, Copy, Debug, PartialEq, Eq, Structural)]
pub enum IndexError {
    /// The snapshot could not be obtained or understood.
    SnapshotFailure,
    /// The durable table is unreachable or corrupt.
    StoreIOFailure,
}

impl StoreError {
    /// A short description of the failure.
    pub fn message(&self) -> (s: String)
        ensures
            s@ == "package table unreachable or corrupt"@,
    {
        "package table unreachable or corrupt".to_owned()
    }
}

impl IndexError {
    /// A short description of the failure.
    pub fn message(&self) -> (s: String)
        ensures
            s@ == (match *self {
                IndexError::SnapshotFailure => "snapshot could not be obtained"@,
                IndexError::StoreIOFailure => "package table unreachable or corrupt"@,
            }),
    {
        match self {
            IndexError::SnapshotFailure => "snapshot could not be obtained".to_owned(),
            IndexError::StoreIOFailure => "package table unreachable or corrupt".to_owned(),
        }
    }
}

} // verus!
