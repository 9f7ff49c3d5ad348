//! Counting lines, words, bytes and characters.

pub mod counts;
pub mod report;

pub use counts::{count_reader, Counts};
pub use report::{columns, Config};
