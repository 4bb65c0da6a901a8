//! Hides byte strings from static inspection by storing each byte as a pair
//! of a shifted value and the offset it was shifted by.
//!
//! [`encode`] turns a plaintext into such pairs, with offsets drawn from a
//! [`RandomByteSource`]; [`decode`] and [`decode_to_string`] turn the pairs
//! back into the plaintext. This is obfuscation, not encryption: whoever runs
//! the decoder has the plaintext.

pub mod decoder;
pub mod encoder;
pub mod pairing;
pub mod source;

pub use decoder::{decode, decode_to_string, DecodeError};
pub use encoder::{encode, encode_byte};
pub use pairing::OFFSET_LIMIT;
pub use source::{FixedSequence, RandomByteSource, ThreadRandom};
