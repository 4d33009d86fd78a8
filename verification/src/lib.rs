//! A strict parser for comma-separated values in the style of RFC 4180.
//!
//! [`parse_csv`] turns a text into a table of fields, or into the first
//! [`Error`] that the text holds. It reads the text once, from the start to
//! the end, looks one character ahead and never goes back.
//!
//! What the parser returns is stated in [`grammar`], as functions on
//! sequences of characters, and the parser is proved to return exactly that.
//! Beside it stand the consequences that a user is likely to lean on:
//!
//! - [`grammar`]: every table has a record, every record a field, and no
//!   field holds anything but printable ASCII, carriage returns and line
//!   feeds;
//! - [`failures`]: the first thing that goes wrong decides the result, and
//!   what that is for a stray character, an unclosed quote and a carriage
//!   return without its line feed;
//! - [`round_trip`]: a table that is written with the quoting of
//!   [`writing`] is read back as it was, exactly where trimming takes
//!   nothing from its text.

pub mod chars;
mod cursor;
pub mod error;
pub mod failures;
pub mod grammar;
mod measure;
pub mod parser;
pub mod round_trip;
pub mod text;
pub mod writing;

pub use error::Error;
pub use parser::{parse_csv, CSVField, CSVRecord, CSV};
