//! Guessing strategies.

pub mod naive;

pub use naive::Naive;
