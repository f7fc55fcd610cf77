# rman

Reading of Riot Games `RMAN` release manifests and the planning and assembly
steps of downloading the files they list, verified with Verus.

- `src/` is the library. `parser/header.rs` reads the fixed header,
  `parser.rs` cuts out and decompresses the manifest body (through zstd), plans
  the byte ranges to fetch for each bundle, names bundles and range requests,
  and assembles a file from the fetched bundle bytes. `parser/bundles.rs` and
  `parser/chunks.rs` hold the specifications and the laws that the plan and the
  assembly keep; `parser/fetch.rs` the retry decisions of a fetch and the
  state that counts its attempts;
  `entries/file_entry.rs` the file entry structure and its construction from
  the plain fields of a `File` table (`FileTable`); nothing here reads the
  flatbuffer itself.
- `app/` reads manifests from disk, fetches bundle ranges over HTTP in parallel
  and writes the assembled files.
- `tests/` runs the library on concrete values, zstd's real output included.
