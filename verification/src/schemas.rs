//! The schema registry and the line parsers.

pub mod json;
pub mod lookup;
pub mod parse;

pub use crate::schemas::lookup::lookup_schema;
pub use crate::schemas::parse::{CoercingLineParser, LineParser, LiteralLineParser};
