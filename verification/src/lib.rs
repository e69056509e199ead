//! Escape-time evaluation for the Mandelbrot iteration, and a generic
//! delimited-pair parser.
//!
//! The escape-time evaluator decides, from the per-iteration escape flags
//! that a caller computes, at which iteration (if any) the accumulator left
//! the circle of radius two.  The pair parser splits a string at the first
//! occurrence of a separator and reads one value from each half.

pub mod escape;
pub mod numbers;
pub mod occurrence;
pub mod parse;
