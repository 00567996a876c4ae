//! Making values out of Rust data.

pub mod map;
pub mod number;
pub mod serializer;
