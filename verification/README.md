# tigerbeetle-manager

Tools around TigerBeetle data files and processes, with their logic proved
in Verus:

- reading data files without a running cluster: superblock election, the
  manifest log walk, LSM index and value blocks, journal (WAL) prepares,
  and paging of the record stream;
- planning balance-snapshot migrations: genesis accounts, re-timestamped
  accounts and at most two synthetic transfers per account that rebuild
  each posted balance, optionally adjusted to a cutoff with the window's
  transfers replayed afterwards, and the batch schedule of the import;
- managing a TigerBeetle process: manager state, backup settings, the
  run loop's decisions and what a manager node answers to each request.

Layout:

- `src/` is the verified library. Every function there carries a contract
  that Verus checks; the proved properties that span functions are the
  `law_*` proof functions (in `plan_laws.rs`, `manifest.rs`, `lsm.rs`,
  `wal.rs`, `superblock.rs`, `reader.rs`, `node.rs` and `supervisor.rs`).
- `app/` is the program around it: file and network I/O, the process and
  scheduler, the TOML file, compression and upload. It hands the bytes and
  events it obtains to the library and acts on what the library decides.
  The node's request handlers are there as functions; the remote API that
  would serve them, and the TigerBeetle client an import needs, are not
  part of this build.
- `tests/` runs the library on concrete values.
