//! Streaming, schema-driven decoding of `.FEC` campaign-finance filings.
//!
//! A filing has a header, which names the version of the file format; a
//! cover line, with what the filing is as a whole; and any number of
//! itemization lines, whose shape depends on the version and on the code
//! that each line begins with. This library decodes the header, resolves
//! the schema of each line from a table of patterns, turns the fields of
//! the lines into typed values, and hands the records to one writer for
//! each kind of record.

pub mod cover;
pub mod csv;
pub mod date;
pub mod error;
pub mod fec;
pub mod header;
pub mod number;
pub mod record;
pub mod schemas;
pub mod text;
pub mod writers;

pub use crate::cover::Cover;
pub use crate::error::Error;
pub use crate::fec::FecFile;
pub use crate::header::Header;
pub use crate::record::Record;
