//! The failures that an evaluation reports.

use vstd::prelude::*;

verus! {

/// Why an evaluation produced no brightness.
#[derive(Clone, Copy, Debug, PartialEq, Eq, Structural)]
pub enum BrightnessError {
    /// No pixel was visited, so there is no mean to report.
    EmptySample,
    /// The grid has no columns or no rows.
    InvalidDimension,
}

} // verus!
