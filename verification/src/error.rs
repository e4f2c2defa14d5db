//! The ways in which building a schema or filling a trace fails.

use vstd::prelude::*;

verus! {

/// Why a schema could not be built or a trace could not be filled.
#[derive(Clone, Copy, Debug, PartialEq, Eq, Structural)]
pub enum Error {
    /// A gate, a write or a copy constraint names a column or a selector that
    /// was not declared, or a column that does not take part in copy
    /// constraints; or the table's size cannot be represented.
    Configuration,
    /// A value that a write depends on is absent.
    MissingWitness,
    /// A cell that already holds a value is written again.
    DoubleAssignment,
    /// A write lies beyond the last row of the table.
    NotEnoughRows,
    /// A write comes before any region was begun.
    NoRegion,
}

} // verus!
