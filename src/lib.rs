//! Store-and-forward encrypted mail delivery: composition, per-recipient
//! envelopes, acknowledgment handshake, derived delivery state and retries.
//!
//! Every record lives in an agent's append-only local log ([`chain::Chain`]);
//! delivery state is recomputed from that history on each query.
//! Cryptography and the peer transport belong to the host: the protocol
//! functions fix what is handed to them and take their outcomes as
//! arguments, so each decision is stated for every outcome.
pub mod model;
pub mod chain;
pub mod codec;
pub mod compose;
pub mod state;
pub mod send;
pub mod receive;
pub mod retry;
pub mod entries;
pub mod laws;
