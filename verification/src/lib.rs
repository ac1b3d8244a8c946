//! Statistical judgment over scores, in the parts that can be decided exactly.
//!
//! The library serves four estimators: moments of a sample, conformal
//! calibration, the chi-squared statistic and the drift between two samples
//! of embeddings. Numbers reach it as IEEE 754 bit patterns, which it reads
//! as the exact numbers they denote, and samples as lengths and shapes. It
//! decides what does not depend on rounding:
//!
//! - [`binary64`]: what a bit pattern denotes, and its place in the total
//!   order;
//! - [`sorting`]: sorting patterns into that order;
//! - [`conformal`]: the calibration set, the conformal rank for a
//!   significance level, and the threshold at that rank;
//! - [`moments`]: when a mean or a variance exists, what it is divided by,
//!   and the clamp that keeps a variance from falling below zero;
//! - [`significance`]: the cells that enter a chi-squared statistic;
//! - [`drift`]: the common dimension of two samples of vectors.
//!
//! The floating-point arithmetic between these decisions (sums, quotients,
//! square roots) is the caller's.

pub mod binary64;
pub mod conformal;
pub mod drift;
pub mod error;
pub mod moments;
pub mod significance;
pub mod sorting;

pub use error::Error;
