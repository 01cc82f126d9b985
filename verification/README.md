# prism-btc

Bitcoin proof-of-work as content addressing, as a Verus-verified library.

A block header is serialized to its canonical 80-byte wire form; the
`sha256d` σ-axis (double SHA-256, display byte order) content-addresses it;
the κ-label `sha256d:<64 lowercase hex>` is the conventional block hash.
Admission under a difficulty target is decided on κ-labels, and the library
proves that this is exactly Bitcoin's `block_hash ≤ target`.

## Layout

- `src/` — the verified library.
  - `ops/` — SHA-256 / SHA-256d (FIPS 180-4, proved against a
    specification of the algorithm), the 80-byte header layout, and the
    protocol merkle root.
  - `shapes/hasher.rs` — the streaming `sha256d` hasher;
    `shapes/primitives.rs` — the header-field feature shapes.
  - `domain.rs` — header fields, the compact target, and the observables of
    a digest: triadic coordinates, the 2-adic ultrametric, Walsh–Hadamard
    parities and capped p-adic valuations.
  - `model.rs` — the realizations a κ-label is grounded through and the
    content fingerprint of each one's grounding certificate.
  - `address.rs` — κ-labels and the witnesses that attest them.
  - `pipeline.rs` — `address_block`, `mine_at`, the nonce searches.
  - `template.rs`, `job.rs` — the block template's checked fields, the
    coinbase, txids (through rust-bitcoin), merkle root and header
    template of a mining job, and the signet gate.
  - `observables.rs`, `campaign.rs` — the receiver-side lens and its
    session aggregate.
  - `composition.rs` — the composition operations on κ-labels and the
    merkle root as iterated ordered product.
  - `commitment.rs` — reading payload bits back from a digest.
- `tests/` — example-based tests, including the protocol test vectors.
- `app/` — the `prism-mine` binary: bitcoind RPC, turning the library's
  job into a rust-bitcoin block, the WebAssembly surface and the typed payload commitments.

Each law the library promises is a public `proof fn` named `law_…` next to
the functions it relates.
