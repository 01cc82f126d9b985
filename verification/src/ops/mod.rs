//! Host-boundary wire-format helpers: canonical header serialization,
//! the pure-Rust SHA-256 / SHA-256d σ-axis, and the Bitcoin merkle root.

pub mod header;
pub mod merkle;
pub mod sha256;
