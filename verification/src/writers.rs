//! Writers for the records of a filing.

pub mod arrow;
pub mod base;
pub mod csv;
pub mod parquet;
