//! Verified cores of a handful of small command-line utilities.

pub mod base64;
pub mod chmod;
pub mod ls;
pub mod wc;
