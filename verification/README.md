# zephyrfs

Storage, redundancy and security logic of the ZephyrFS distributed file store, written in
Verus. The functions in `src/` carry contracts that Verus proves, apart from a few small
trusted wrappers around outside calls (hashing, hex encoding, clocks, random identifiers,
string pushes), whose contracts Verus takes on trust; they are marked
`#[verifier::external_body]` and listed below.

- `src/storage` — content-addressed chunking of files (`file_chunker`), chunk and file
  records with their checksums and reference counts (`chunk_store`, `metadata_store`,
  `encrypted_chunk_store`), MIME detection and reassembly (`storage_manager`).
- `src/redundancy` — GF(2^8) arithmetic (`galois`), matrix facts over it (`gf_matrix`),
  systematic Reed-Solomon coding whose decoding is proved to give back the encoded pieces
  and to fail only when no decoding matrix exists (`reed_solomon`), and the integer parts of
  node tracking, replication planning and network health alerts.
- `src/security` — per-chunk isolation with an audit log, content-blind threat assessment,
  quarantine bookkeeping and access decisions.
- `src/verification` — integrity proofs of stored content (hashes, Merkle roots,
  completeness checks).
- `src/digest.rs`, `src/clock.rs`, `src/text.rs`, `src/bytes.rs` — the calls into `sha2`,
  `ring`, `blake3`, `hex`, `chrono`, `uuid` and `std`, each behind a small trusted function
  whose contract says what the library relies on.
- `app/` — plain Rust around the library: the RocksDB-backed stores and storage manager,
  reading files from disk, serde copies of the records, and the figures computed in
  floating point.
- `tests/` — unit and scenario tests of the library.
