//! Taking the parts of a value out as Rust data.

pub mod number;
