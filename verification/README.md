# chromium_storage_forensic

Verified readers for three Chromium storage back ends, and the analyzers that
grade what they surface:

- **Simple Cache** entry files (`Cache/Cache_Data/<hash>_0`): key, URL, body and
  its CRC-32, HTTP status line and headers, request/response times, key SHA-256.
- **IndexedDB** over LevelDB: `(database, object store, key, decoded V8 value)`
  per object-store data record, with names resolved from the store's metadata.
- **Local Storage** over LevelDB: per-origin `META` records and type-prefixed
  key/value pairs, tombstones included.

Every function in `src/` is verified with Verus: the parsers never panic, and
their contracts state exactly what each input decodes to (or which error it
ends in). Two things are named rather than spelled out: the text
`String::from_utf8_lossy` makes of invalid UTF-8 (valid UTF-8 decodes to
exactly its text), and the value the V8 structured-clone decoder yields. Laws of the library (trailers never overlap, a clean UTF-16 decode
round-trips, a varint read loses no bits, the CRC-32 catches every one-byte
edit of a body, clean inputs are true negatives for every analyzer, decoding
keeps every record in order, ...) are public proof functions.

## Layout

| Path | What it holds |
|---|---|
| `src/bytes.rs`, `src/varint.rs`, `src/text.rs` | bounds-checked integer reads, LEB128 varints, UTF-16/Latin-1/UTF-8 text, number rendering |
| `src/cache_error.rs`, `src/cache_entry.rs`, `src/cache_analysis.rs` | the Simple Cache reader and analyzer |
| `src/idb_prefix.rs`, `src/idb_key.rs`, `src/indexeddb.rs`, `src/idb_analysis.rs` | the IndexedDB reader and analyzer |
| `src/ls_value.rs`, `src/localstorage.rs`, `src/ls_analysis.rs` | the Local Storage reader and analyzer |
| `src/record.rs`, `src/report.rs` | the raw LevelDB record and the severity/category of a finding |
| `app/` | directory walking, the `leveldb-core` record source, `Display`, and the `forensicnomicon` report trait |
| `tests/` | scenario tests on hand-built entries and records |

Calls into `forensicnomicon-core`, `safe-read`, `blob-decoder`, `crc32fast` and
`sha2` stand behind small trusted items whose contracts restate what those
crates document; everything else is proved.
