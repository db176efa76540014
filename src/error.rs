use vstd::prelude::*;

verus! {

/// What can go wrong while turning save data into metric series.
#[derive(Debug, Clone, Copy, PartialEq, Eq, Structural)]
pub enum ExportError {
    /// The name lookup produced no name for a player identifier.
    NameNotFound,
    /// The expected layout of the save directory is missing.
    MissingStructure,
    /// A player's stats or scalar source is malformed.
    ParseFailure,
    /// A stats-tree leaf is not a number.
    NonNumericValue,
}

} // verus!
