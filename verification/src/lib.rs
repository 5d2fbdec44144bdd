//! A stream framing layer for a JSON-based debug protocol: incoming bytes are
//! split at `Content-Length` frame boundaries by a resumable decoder, and
//! outgoing messages are serialized and framed the same way.
pub mod bytes_buf;
pub mod codec;
pub mod dec;
pub mod frame;
pub mod headers;
pub mod json;
pub mod laws;
pub mod message;

