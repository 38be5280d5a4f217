//! The ways in which a caller's configuration can be wrong.

use vstd::prelude::*;

verus! {

/// Why a request was turned down. None of these can be mended locally: each
/// names a fault in what the caller handed over.
#[derive(Clone, Copy, Debug, PartialEq, Eq, Structural)]
pub enum GridError {
    /// A reward or policy array does not hold one entry per cell, or a list of
    /// per-step flags does not hold one entry per step.
    InvalidDimension,
    /// A cell number (an obstacle, an end cell, a position) lies outside `1..=25`.
    InvalidCellIndex,
    /// An action code or a policy code is not in the code table.
    InvalidActionCode,
    /// The sweep limit was reached before two successive value vectors agreed
    /// within the tolerance.
    NonConvergence,
    /// Every cell of the grid is an obstacle, so no walk can start anywhere.
    NoFreeCell,
    /// A step was to leave the intended set, but the intended set already
    /// holds all four actions.
    NoAlternativeAction,
}

} // verus!
