//! The dimension-expression engine of a status-bar renderer.
//!
//! A layout field may be given as a plain number or as a compact
//! `calc()`-like expression such as `"100%:-50px:*2"`: a base value
//! followed by chained operator/value segments, applied strictly left to
//! right with no precedence. This crate holds the grammar, its
//! mathematical model, and the verified parser; resolving a parsed
//! expression against a basis works on floating-point numbers and is left
//! to the consumer.

pub mod calc;
pub mod grammar;
pub mod laws;
