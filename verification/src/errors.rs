//! The error taxonomy of the pipeline.
//!
//! Every stage detects its failure at its own boundary and propagates it
//! upward explicitly; no stage silently substitutes a default value.

use vstd::prelude::*;

verus! {

/// Why a pipeline stage refused to produce a result.
#[derive(Clone, Copy, Debug, PartialEq, Eq, Structural)]
pub enum Error {
    /// A statistic was requested over zero elements.
    EmptyInput,
    /// A z-score was requested with a zero standard deviation.
    DivideByZero,
    /// Classification was requested with no training records.
    EmptyTrainingSet,
    /// Classification was requested with a neighbor count of zero.
    InvalidK,
    /// Accuracy was requested over a confusion matrix with zero entries.
    EmptyEvaluationSet,
}

} // verus!
