//! Version numbers in the style of Apple bundle metadata: a triple
//! `major.minor.patch`, optionally followed by further numbers, read from
//! and written as dotted text, and ordered.

pub mod decimal;
pub mod message;
pub mod order;
pub mod tokens;
pub mod triple;
pub mod version;

pub use crate::decimal::NumberError;
pub use crate::tokens::Tokens;
pub use crate::triple::{VersionTriple, VersionTripleError};
pub use crate::version::{VersionNumber, VersionNumberError};
