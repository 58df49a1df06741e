//! A verified core for a minimal HTTP/1.1 server.
//!
//! The library owns everything between the bytes read from a socket
//! and the bytes written back: parsing a raw request buffer into a
//! structured request, routing it over a small fixed route table,
//! negotiating whole-body gzip compression, and serializing the
//! response to its exact wire form. Each step carries a contract
//! against a mathematical description of its result, and `router` ties
//! them together into one per-connection decision.
//!
//! What stays outside: the TCP accept loop, the worker pool, and the
//! file gateway (a directory read or written for the files routes) are
//! I/O and are driven by the embedding program, which performs the
//! `Action` the router hands out. The gzip primitive itself comes from
//! flate2 behind a single trusted wrapper.
pub mod bytes;
pub mod gzip;
pub mod http;
pub mod parse;
pub mod response;
pub mod router;
