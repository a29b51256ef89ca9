//! A minimal HTTP/1.1 server core: framing, parsing and serialization of
//! requests and responses, together with the per-connection route dispatch.
//!
//! The library is pure logic over bytes and characters.  All I/O (accepting
//! connections, reading bytes, the proxy-directory lookup) lives outside the
//! library and hands plain values in and out.

pub mod error;
pub mod headers;
pub mod method;
pub mod request;
pub mod response;
pub mod routes;
pub mod status;
pub mod text;
pub mod version;
