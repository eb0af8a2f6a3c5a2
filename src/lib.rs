//! Columnar string arrays: a constant-value column, a builder that grows a
//! variable-length column from it, and the encoding of string columns into
//! data pages with their statistics.

pub mod datatypes;
pub mod const_utf8;
pub mod utf8;
pub mod buffer;
pub mod growable;
pub mod truncate;
pub mod page;
pub mod statistics;
pub mod metadata;
pub mod flight;

pub use const_utf8::{write_value, ConstUtf8Array};
pub use datatypes::{DataType, Error};
pub use growable::GrowableConstUtf8;
pub use metadata::read_schema_from_metadata;
pub use truncate::{truncate_down, truncate_up};
pub use utf8::Utf8Array;
