//! Base64 codec over the standard alphabet with `=` padding.

pub mod alphabet;
pub mod codec;
pub mod decode;
pub mod encode;
pub mod laws;

pub use alphabet::{index_of, symbol_of, NotInAlphabet};
pub use codec::{transcode, Mode};
pub use decode::{decode, decode_group, DecodeError};
pub use encode::{encode, encode_group};
