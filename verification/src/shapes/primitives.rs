//! The Bitcoin wire-format feature primitives: each header field as a
//! typed shape with its IRI, its byte-site count and its cycle size (the
//! number of values the field ranges over, saturated at `u64::MAX`).
//! None declares constraints.

use vstd::prelude::*;

verus! {

/// 4-byte little-endian block version.
#[derive(Debug, Clone, Copy, PartialEq, Eq)]
pub struct Version;

impl Version {
    /// The shape IRI.
    pub fn iri() -> (s: &'static str)
        ensures
            s == "https://prism.btc/shape/Version",
    {
        "https://prism.btc/shape/Version"
    }

    /// One byte site per wire-format byte.
    pub fn site_count() -> (n: usize)
        ensures
            n == 4,
    {
        4
    }

    /// The number of values of the field, saturated at `u64::MAX`.
    pub fn cycle_size() -> (n: u64)
        ensures
            n == 0x1_0000_0000,
    {
        0x1_0000_0000
    }
}

/// 32-byte previous-block content address.
#[derive(Debug, Clone, Copy, PartialEq, Eq)]
pub struct PrevHash;

impl PrevHash {
    /// The shape IRI.
    pub fn iri() -> (s: &'static str)
        ensures
            s == "https://prism.btc/shape/PrevHash",
    {
        "https://prism.btc/shape/PrevHash"
    }

    /// One byte site per wire-format byte.
    pub fn site_count() -> (n: usize)
        ensures
            n == 32,
    {
        32
    }

    /// The number of values of the field, saturated at `u64::MAX`.
    pub fn cycle_size() -> (n: u64)
        ensures
            n == 0xffff_ffff_ffff_ffff,
    {
        0xffff_ffff_ffff_ffff
    }
}

/// 32-byte merkle-root content address.
#[derive(Debug, Clone, Copy, PartialEq, Eq)]
pub struct MerkleRoot;

impl MerkleRoot {
    /// The shape IRI.
    pub fn iri() -> (s: &'static str)
        ensures
            s == "https://prism.btc/shape/MerkleRoot",
    {
        "https://prism.btc/shape/MerkleRoot"
    }

    /// One byte site per wire-format byte.
    pub fn site_count() -> (n: usize)
        ensures
            n == 32,
    {
        32
    }

    /// The number of values of the field, saturated at `u64::MAX`.
    pub fn cycle_size() -> (n: u64)
        ensures
            n == 0xffff_ffff_ffff_ffff,
    {
        0xffff_ffff_ffff_ffff
    }
}

/// 4-byte little-endian timestamp (Unix seconds).
#[derive(Debug, Clone, Copy, PartialEq, Eq)]
pub struct Timestamp;

impl Timestamp {
    /// The shape IRI.
    pub fn iri() -> (s: &'static str)
        ensures
            s == "https://prism.btc/shape/Timestamp",
    {
        "https://prism.btc/shape/Timestamp"
    }

    /// One byte site per wire-format byte.
    pub fn site_count() -> (n: usize)
        ensures
            n == 4,
    {
        4
    }

    /// The number of values of the field, saturated at `u64::MAX`.
    pub fn cycle_size() -> (n: u64)
        ensures
            n == 0x1_0000_0000,
    {
        0x1_0000_0000
    }
}

/// 4-byte little-endian compact-encoded target.
#[derive(Debug, Clone, Copy, PartialEq, Eq)]
pub struct Bits;

impl Bits {
    /// The shape IRI.
    pub fn iri() -> (s: &'static str)
        ensures
            s == "https://prism.btc/shape/Bits",
    {
        "https://prism.btc/shape/Bits"
    }

    /// One byte site per wire-format byte.
    pub fn site_count() -> (n: usize)
        ensures
            n == 4,
    {
        4
    }

    /// The number of values of the field, saturated at `u64::MAX`.
    pub fn cycle_size() -> (n: u64)
        ensures
            n == 0x1_0000_0000,
    {
        0x1_0000_0000
    }
}

/// 4-byte little-endian miner-chosen nonce.
#[derive(Debug, Clone, Copy, PartialEq, Eq)]
pub struct Nonce;

impl Nonce {
    /// The shape IRI.
    pub fn iri() -> (s: &'static str)
        ensures
            s == "https://prism.btc/shape/Nonce",
    {
        "https://prism.btc/shape/Nonce"
    }

    /// One byte site per wire-format byte.
    pub fn site_count() -> (n: usize)
        ensures
            n == 4,
    {
        4
    }

    /// The number of values of the field, saturated at `u64::MAX`.
    pub fn cycle_size() -> (n: u64)
        ensures
            n == 0x1_0000_0000,
    {
        0x1_0000_0000
    }
}

/// 32-byte target threshold, the projection of `Bits`.
#[derive(Debug, Clone, Copy, PartialEq, Eq)]
pub struct Target;

impl Target {
    /// The shape IRI.
    pub fn iri() -> (s: &'static str)
        ensures
            s == "https://prism.btc/shape/Target",
    {
        "https://prism.btc/shape/Target"
    }

    /// One byte site per wire-format byte.
    pub fn site_count() -> (n: usize)
        ensures
            n == 32,
    {
        32
    }

    /// The number of values of the field, saturated at `u64::MAX`.
    pub fn cycle_size() -> (n: u64)
        ensures
            n == 0xffff_ffff_ffff_ffff,
    {
        0xffff_ffff_ffff_ffff
    }
}

} // verus!
