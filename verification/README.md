# stoolap

Deterministic state types, Merkle structures, confidential-query types and
L2 rollup logic for a blockchain SQL database, written in Verus with the
behaviour of its functions stated in their contracts and proved.

Layout:

- `src/determ` — deterministic values and rows: their byte encodings,
  decoders and XOR-folded hashes.
- `src/trie` — the Merkle proof and root helpers, the hexary row trie, the
  schema trie, and confidential queries over the row trie.
- `src/rollup` — batches and transactions with their encodings, batch
  execution, submission, fraud proofs and withdrawals.
- `src/zk` — Pedersen commitments, encrypted queries and confidential
  results with their encodings, the Cairo program registry, the bundled
  programs, the prover configuration, the plugin decisions, and checking a
  Cairo STARK proof with the Cairo verifier.
- `src/bytes.rs`, `src/text.rs`, `src/crypto.rs` — little-endian encodings,
  decimal rendering for log lines, and the hash functions the library calls.
- `app/` — loading the proof-verification plugin from a shared library, the
  proof flows that use it, and the C interface the plugin exports.
- `tests/` — the test suite.

Collections: the Cairo program registry keeps its programs and its
allowlist in vectors sorted by hash, and the schema trie keeps its schemas
in a vector with one entry per table name, where ordered maps and sets
keyed by byte-array hashes and a hash map keyed by strings would be the
usual choice. Verus's specifications of those std collections prove little
of their contents for such keys, while the sorted order and the uniqueness
of keys of a vector can be stated as invariants and proved.

The Cairo proof verifier is called from `app/`: it panics on parsed proofs
whose claim breaks its assertions, which no contract over the proof bytes
can rule out, so the library decides what its answers mean and the
application makes the call.
