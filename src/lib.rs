//! Reconstruction of an HTTP body from the two views that a proxy keeps of it
//! (the chunks just received and the chunks it has buffered), and the write-back
//! of a replacement body into both views.
pub mod accumulator;
pub mod body;
pub mod store;

pub use accumulator::StreamBodyState;
pub use body::{
    read_whole_body, read_whole_request_body, read_whole_response_body, replace_whole_body,
    same_chunks,
};
pub use store::{bytes_equal, BodyBuffers, BodyView, ChunkId, Direction};
