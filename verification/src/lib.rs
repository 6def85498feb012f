//! An HTTP/1.x core: parses raw request text into a validated `Request`
//! value, and assembles a `Response` value into well-formed wire bytes.
//!
//! The crate does no I/O of its own; a transport layer hands it a complete
//! buffer and receives either a structured request or response bytes.

pub mod error;
pub mod headers;
pub mod method;
pub mod request;
pub mod response;
pub mod text;
