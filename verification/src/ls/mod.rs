//! Listing the names in a directory.

pub mod listing;

pub use listing::{is_listed, list_dir, Config};
