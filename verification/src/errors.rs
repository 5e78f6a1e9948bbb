//! The failure taxonomy of the engine.
//!
//! Recoverable conditions (an oversized chunk, a fragment after a terminal
//! finish, a missing session file) are absorbed with a documented fallback
//! and never abort the session; everything else is surfaced as one of the
//! typed errors below, carrying enough context to render a message.

use vstd::prelude::*;

verus! {

/// A chunk had to be emitted even though it alone exceeds the token budget.
/// This is a warning: the data is still emitted, never dropped.
#[derive(Clone, Copy, Debug, PartialEq, Eq, Structural)]
pub struct ChunkOverflow {
    /// Position of the oversized chunk in the returned sequence.
    pub chunk_index: usize,
    /// How many tokens the oversized chunk encodes to.
    pub token_count: usize,
}

/// Model-resolution failures, fatal to session start.
#[derive(Clone, Debug)]
pub enum GPTConnectorError {
    /// Neither the configured default nor the fallback model is accessible;
    /// both attempted names are carried for the user-facing message.
    ModelUnavailable { default_name: String, fallback_name: String },
    /// The provider's model catalog could not be fetched or came back empty.
    /// Distinct from `ModelUnavailable`: the remedy is to retry, not to
    /// reconfigure.
    CatalogFetchFailed,
}

/// How a failed dispatch attempt is classified: transient failures are
/// retried under backoff, fatal ones are surfaced immediately.
#[derive(Clone, Copy, Debug, PartialEq, Eq, Structural)]
pub enum TransportClass {
    Transient,
    Fatal,
}

} // verus!
