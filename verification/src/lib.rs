//! Core of a Stratum-style mining pool server for a PoSW blockchain.
//!
//! The library is the single-writer coordination engine: it owns the
//! connection and prover maps, validates submitted shares, drives the
//! vardiff control loop, and decides which messages go out to provers,
//! to the accounting actor and to the upstream operator.  All I/O, the
//! async executor and the cryptographic verifier live outside; the
//! engine consumes plain events and emits plain actions.

pub mod difficulty;
pub mod hexenc;
pub mod idset;
pub mod laws;
pub mod message;
pub mod nonce;
pub mod pool;
pub mod prover;
pub mod server;
pub mod speedometer;
pub mod template;
