# tipjar

Verified core of the TipJar tooling: the contract-event indexer, the contract-state
backup tools and the royalty ledger of derivative content. Verus checks every function
in `src/`; its public functions state what they compute in `requires`/`ensures`
contracts.

- `src/` — the verified library:
  - `text`, `json`: character-level string helpers and the JSON document model the
    indexer reads and writes (compact text exactly as `serde_json` writes it).
  - `event_parser`: decoding of contract events by topic symbol.
  - `event_listener`: event-source requests and replies, paging cursors, the replay
    state machine and the retry back-off policy.
  - `api`: the event listing query.
  - `royalty`: royalty registration and distribution along content lineage.
  - `checksum`, `crypto`: SHA-256 checksums and AES-256-GCM/base64 backup encryption
    (through trusted wrappers over `sha2`, `aes-gcm`, `base64` and `rand`).
  - `types`, `state_exporter`, `state_importer`, `storage`, `backup_scheduler`: backup
    records, incremental diffs, restore plans, storage locations and retention.
- `app/` — the programs around it: HTTP, Postgres, files, processes and timers.
- `tests/` — tests of the library run against the real outside crates.
