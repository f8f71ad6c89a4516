//! A minimal synchronous HTTP/1.1 server core: a wire codec for requests and
//! responses, the handler capability, and the per-connection dispatch
//! decisions, with the I/O left to the caller.
pub mod lex;
pub mod method;
pub mod status;
pub mod error;
pub mod headers;
pub mod request;
pub mod response;
pub mod handler;
pub mod server;
pub mod timer;
