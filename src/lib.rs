//! A codec and in-memory model for the PNG chunk format: typed, length-prefixed,
//! checksummed chunks framed by the PNG signature.
pub mod chunk;
pub mod chunk_type;
pub mod error;
pub mod message;
pub mod png;
pub mod text;

pub use chunk::Chunk;
pub use chunk_type::ChunkType;
pub use error::{Error, FormatError};
pub use png::Png;

