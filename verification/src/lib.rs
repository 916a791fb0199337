//! A verified core for a BRC-20 token indexer.
//!
//! The library implements the deterministic protocol rules of the BRC-20
//! convention: decimal amount parsing at a ticker's declared precision,
//! extraction of inscription payloads from witness bytes, and the state
//! machine that validates deploy, mint, transfer-inscribe and transfer-send
//! operations while maintaining a balance ledger, an append-only history,
//! and a registry of pending transfers.
//!
//! Everything that touches the outside world (the Bitcoin node, the document
//! store) stays out of this crate's verified core; callers hand in plain
//! values and take plain values back.

pub mod amount;
pub mod block;
pub mod bytes;
pub mod extract;
pub mod invariants;
pub mod laws;
pub mod model;
pub mod state;
pub mod validator;
