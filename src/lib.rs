//! A streaming base64 decoder: base64 text arrives from a byte source in chunks
//! of any size, and decoded bytes are handed out into caller buffers of any size.

pub mod decode;
pub mod model;
pub mod reader;
pub mod laws;

pub use decode::DecodeFailure;
pub use model::BUFFER_SIZE;
pub use reader::FromBase64Reader;
pub use reader::ReadStep;
