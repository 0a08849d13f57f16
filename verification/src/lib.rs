//! A minimal HTTP/2 server engine.
//!
//! The engine terminates a raw byte stream: it validates the client's
//! connection preface, decodes the binary framing layer, reassembles each
//! stream's request across frames, and encodes the application's response
//! back into frames. Header compression is hpack's, consumed as an opaque
//! encode/decode capability; all transport reads and writes stay with the
//! caller, which hands the engine plain bytes and frames.
//!
//! - [`h2`]: the 9-byte frame header codec and the flag byte.
//! - [`http`]: wire-independent request and response values.
//! - [`stream`]: one stream's state machine, from frames to a request.
//! - [`conn`]: one connection's state, from preface to routed frames.
//! - [`hpack_adapter`]: the boundary to hpack's encoder and decoder.
//! - [`decimal`]: the decimal conversions header values need.

pub mod conn;
pub mod decimal;
pub mod h2;
pub mod hpack_adapter;
pub mod http;
pub mod stream;
