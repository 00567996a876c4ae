//! The parts that turn tokens into values.

pub mod jsonc;
pub mod number;
pub mod string;
