//! A verified core for a small HTTP/1.1 server: request parsing,
//! header typing, route selection and response serialization.
//!
//! The surrounding binary owns the sockets, the threads and the filesystem;
//! everything here is pure logic over characters and bytes, specified and
//! proved. One connection flows through the crate as: find the frame
//! boundary in the received bytes (`frame`), parse the header block
//! (`request`, `headers`), decide what to do (`router`), and serialize the
//! response bit-exactly (`response`).

pub mod frame;
pub mod headers;
pub mod numdec;
pub mod request;
pub mod response;
pub mod router;
pub mod strutil;
