//! The parts that turn values into text.

pub mod jsonc;
pub mod map;
pub mod number;
pub mod seq;
pub mod variant;
