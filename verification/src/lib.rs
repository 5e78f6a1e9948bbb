//! Session and streaming transaction engine for an interactive chat client.
//!
//! The library turns user input into token-bounded chat requests, folds
//! streamed response fragments into coherent transactions, resolves which
//! model a session should use, decides when a failed dispatch may be retried,
//! and serializes session state to a text form that loads back exactly.
//! All file and network traffic stays outside the library: callers hand in
//! plain values (file contents, catalog listings, stream fragments) and take
//! plain values back.

pub mod chunker;
pub mod codec;
pub mod errors;
pub mod persist;
pub mod request;
pub mod resolver;
pub mod session;
pub mod strutil;
pub mod transaction;
pub mod transport;
pub mod types;
