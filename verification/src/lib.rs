//! A minimal HTTP/1.1 server, without its sockets: the request grammar, the
//! route table, the response writer and the state machine of a connection,
//! each with a machine-checked contract.
//!
//! - [`grammar`]: matchers on byte slices, the leaves of the request grammar.
//! - [`request`]: the request parser.
//! - [`router`]: the route table.
//! - [`response`]: responses and their bytes on the wire.
//! - [`files`]: finding a file in a directory listing.
//! - [`connection`]: what a connection does next, given what just happened.
//! - [`decimal`]: the numbers of `Content-Length`.
//! - [`text`]: the fixed strings of the protocol.
//! - [`roundtrip`]: laws that tie the parser to the writer.
//!
//! The library reads no socket and no file. Its caller does, as the state
//! machine in [`connection`] asks, and reports back what came of it.

pub mod connection;
pub mod decimal;
pub mod files;
pub mod grammar;
pub mod request;
pub mod response;
pub mod roundtrip;
pub mod router;
pub mod text;
