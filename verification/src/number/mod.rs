//! Double-precision numbers, computed on their bit patterns.

pub mod algebra;
pub mod bignat;
pub mod binary64;
pub mod display;
pub mod precision;
pub mod reading;
pub mod rounding;
