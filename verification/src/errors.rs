//! Error taxonomy of the engine.

use vstd::prelude::*;

verus! {

/// A fault found in a textual grid handed to the parser.
#[derive(Debug, Clone, PartialEq, Eq, Structural)]
pub enum InputFault {
    /// The text holds no non-blank row.
    EmptyGrid,
    /// A row differs in length from the first row.
    RowLength { row: usize, expected: usize, actual: usize },
    /// A character other than '0' or '1' occurs at the given position.
    BadCharacter { row: usize, col: usize },
}

/// Errors raised by the engine's components.
#[derive(Debug, Clone, PartialEq, Eq)]
pub enum EngineError {
    /// A coordinate lies outside the declared grid or time extents.
    OutOfBounds { x: usize, y: usize, t: usize },
    /// A grid disagrees with the declared width and height.
    DimensionMismatch {
        expected_width: usize,
        expected_height: usize,
        actual_width: usize,
        actual_height: usize,
    },
    /// A clause with no literals was handed to a backend.
    EmptyClause,
    /// A malformed textual grid.
    InvalidInput(InputFault),
    /// An opaque failure inside a SAT backend.
    BackendError(String),
    /// A settings record that breaks its own constraints.
    InvalidSettings,
}

impl EngineError {
    /// A short fixed label for the error kind.
    pub fn kind_name(&self) -> (r: &'static str)
        ensures
            r@ == match self {
                EngineError::OutOfBounds { .. } => "out of bounds"@,
                EngineError::DimensionMismatch { .. } => "dimension mismatch"@,
                EngineError::EmptyClause => "empty clause"@,
                EngineError::InvalidInput(_) => "invalid input"@,
                EngineError::BackendError(_) => "backend error"@,
                EngineError::InvalidSettings => "invalid settings"@,
            },
    {
        match self {
            EngineError::OutOfBounds { .. } => "out of bounds",
            EngineError::DimensionMismatch { .. } => "dimension mismatch",
            EngineError::EmptyClause => "empty clause",
            EngineError::InvalidInput(_) => "invalid input",
            EngineError::BackendError(_) => "backend error",
            EngineError::InvalidSettings => "invalid settings",
        }
    }
}

} // verus!
