//! A minimal HTTP/1.1 server core: request parsing, route matching, and
//! response serialization, all specified and verified. Socket handling lives
//! outside this crate; the library works on the text lines read from a
//! connection and produces the exact bytes to write back.

pub mod request;
pub mod response;
pub mod route;
pub mod server;
