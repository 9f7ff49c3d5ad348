//! File mode bits from their octal or symbolic notation.

pub mod mode;
pub mod octal;
pub mod symbolic;
pub mod text;

pub use mode::parse_mode;
pub use symbolic::ModeError;
