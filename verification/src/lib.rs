//! Exact ordinary-least-squares simple linear regression.
//!
//! The engine fits a line `y = intercept + slope * x` to a dataset of
//! integer-valued observations and reports two goodness-of-fit metrics,
//! the mean squared error and the coefficient of determination.
//! Every statistic is an exact rational number: nothing is rounded, so
//! each function's contract pins its result down to the numerator and
//! denominator.
//!
//! The two degenerate divisions of the underlying formulas (a predictor
//! column of zero variance for the slope, a response column of zero
//! variance for R squared) and the empty dataset are reported as explicit
//! errors rather than propagated silently; see [`engine::RegError`].

pub mod engine;
pub mod laws;
pub mod rational;
pub mod sums;
