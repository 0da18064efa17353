//! Coverage-feedback kernel for evolutionary fuzzers.
//!
//! Three operations run on every test-case execution: classifying raw
//! per-edge hit counts into magnitude buckets, binarizing a trace into
//! hit/not-hit sentinels, and comparing a trace against a history map to
//! decide whether the execution was novel. Each operation has a scalar
//! reference implementation and chunked variants that are proved to return
//! output identical to the reference.

mod chunks;
pub mod counts;
pub mod cov;
mod simd_ops;
