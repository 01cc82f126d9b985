//! Substitution-axis selections for the Bitcoin addressing realization:
//! the `sha256d` σ-axis, [`hasher::Sha256dHasher`], and the typed
//! wire-format feature primitives, [`primitives`].

pub mod hasher;
pub mod primitives;
