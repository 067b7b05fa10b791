//! The binary codec: from the in-memory representation to words and back.

pub mod assemble;
pub mod bytes;
pub mod decode;
pub mod encoding;
pub mod error;
pub mod parse;
pub mod roundtrip;
pub mod sound;

pub use self::assemble::{assemble_str, Assemble};
pub use self::bytes::{assemble_bytes, bytes_to_words, parse_bytes, words_to_bytes};
pub use self::error::{DecodeError, DecodeErrorKind};
pub use self::parse::parse_words;
