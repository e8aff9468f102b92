//! A length-delimited frame codec: splits a raw byte stream into
//! length-prefixed frames and writes frames back out as length-prefixed
//! byte sequences.

pub mod bytes_buf;
pub mod laws;
pub mod length_codec;
pub mod wire;

pub use bytes_buf::bytes_view;
pub use length_codec::{FrameError, LengthDelimitedCodec};
