//! Errors of the cutting engine.

use vstd::prelude::*;

verus! {

/// Why a cut or a placement could not be made.
#[derive(Debug, Clone, PartialEq, Eq)]
pub enum CuttingError {
    /// A cut position outside the open interval between `min` and `max`.
    InvalidCutPosition { position: i32, min: i32, max: i32 },
    /// A placement that the layout does not allow.
    GeneralCuttingError(String),
}

/// Why a search cannot run.
#[derive(Debug, Clone, PartialEq, Eq)]
pub enum OptimizerError {
    InvalidInput { details: String },
}

} // verus!
