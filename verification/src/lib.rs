//! Core of a peer-to-peer model-synchronization node: sparse top-k delta
//! extraction with error-feedback residuals, dense snapshot blending, a
//! score-ranked neighbor topology, a stake-and-reputation ledger, dual-curve
//! signing, a canonical wire codec and per-window bandwidth budgets.
//!
//! Every former real-valued quantity (parameters, scores, stakes) is held in
//! fixed point: an `i64` counting micro-units, so `1_000_000` stands for one
//! whole unit. Clock readings are milliseconds of a monotonic clock, handed in
//! by the caller.

pub mod bandwidth;
pub mod codec;
pub mod consensus;
pub mod crypto;
pub mod inference;
pub mod node;
pub mod topology;
pub mod rng;
pub mod types;
