//! A WebSocket echo server's protocol logic: the HTTP upgrade handshake,
//! the frame header codec, payload masking and the echo session's decisions.
pub mod big_endian;
pub mod frame;
pub mod payload;
pub mod request;
pub mod handshake;
pub mod session;
