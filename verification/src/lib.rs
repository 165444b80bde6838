//! A verified codec for the PNG container format: 4-byte chunk-type tags,
//! length-prefixed CRC-checked chunk records, and the whole file as a
//! signature followed by an ordered sequence of chunks.

pub mod checksum;
pub mod chunk;
pub mod chunk_type;
pub mod error;
pub mod png;
mod text;
pub mod util;

pub use error::PngError;
