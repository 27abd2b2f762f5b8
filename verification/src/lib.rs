//! Incremental parser for the head (request line and headers) of an
//! HTTP/1.x-style text request.
//!
//! The head parser turns a complete head text into a structured [`request::Request`]
//! or a typed [`request::ParserError`]; the accumulator collects bytes from a
//! stream, chunk by chunk, until a complete head has arrived.

pub mod accumulator;
pub mod headers;
pub mod laws;
pub mod request;
pub mod text;
