//! JSON with comments: a parser and a formatter for JSON text that may hold
//! JavaScript style comments (`//` and `/* */`) and trailing commas.

pub mod ascii;
pub mod conversions;
pub mod de;
pub mod error;
pub mod reread;
pub mod roundtrip;
pub mod ser;
pub mod token;
pub mod utf8;
pub mod value;

pub use error::JsonWithCommentsError as Error;
