//! A verified codec for a chunk-based image container format.
//!
//! The container is a fixed 8-byte signature followed by chunks, each laid out
//! on the wire as `length(4) | type(4) | data(length) | crc(4)` with big-endian
//! integers. The crate models the wire format with spec-level parsers and
//! serializers and proves the executable code against them.

pub mod chunk;
pub mod chunk_type;
pub mod error;
pub mod laws;
pub mod png;
pub mod text;
pub mod wire;
