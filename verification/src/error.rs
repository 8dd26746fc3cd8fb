use vstd::prelude::*;

verus! {

/// The ways in which an operation on a battle pack can fail.
#[derive(Clone, Copy, Debug, PartialEq, Eq, Structural)]
pub enum PackError {
    /// The input container or input directory does not exist.
    NotFound,
    /// A read, write or seek failed, or the data ended before the operation did.
    IoFailure,
    /// The section table is truncated or inconsistent, a section lies outside
    /// the container, or a section cannot be represented in the table.
    Format,
    /// The marker of the equipment array does not occur in the container.
    SignatureNotFound,
    /// A writer was given another number of sections than it was created for.
    ContractViolation,
}

/// The ways in which reading treasure data can fail.
#[derive(Clone, Copy, Debug, PartialEq, Eq, Structural)]
pub enum TreasureError {
    /// A file could not be read, or ended before the data did.
    Io,
    /// A data file does not hold the JSON that is expected of it.
    Json,
}

} // verus!
