//! A verified k-nearest-neighbors classification pipeline over fixed-point
//! numbers.
//!
//! The pipeline z-score normalizes the feature columns of a labeled dataset,
//! partitions it into training and test splits by a fixed ratio, classifies
//! each test record by a majority vote of its k nearest training records, and
//! tabulates a confusion matrix with an exact accuracy ratio.
//!
//! Every quantity is a fixed-point integer: a caller chooses a unit (say,
//! thousandths) and hands in each real-valued feature as a scaled `i64`.
//! All arithmetic is exact integer arithmetic with explicitly specified
//! truncation, so every function carries a contract that pins its result
//! down completely.

pub mod dataset;
pub mod errors;
pub mod eval;
pub mod knn;
pub mod normalize;
pub mod split;
pub mod stats;
