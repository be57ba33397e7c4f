# serde_ipld_dagcbor

A DAG-CBOR serializer whose byte output is specified, with machine-checked proofs.

- `src/cbor.rs` — the CBOR items written (heads, integers, strings, floats,
  CIDs, collection starts), as spec functions, and the executable head encoder.
- `src/decode.rs` — a spec reader for those items and the laws that every item
  written reads back as the value it came from.
- `src/write.rs` — the `Write` sink trait, the in-memory `BufWriter`, errors.
- `src/ser.rs` — `Serializer`, `Collect`, `BoundedCollect`: one method per event
  of the serde data model, each with the exact bytes it appends.
- `src/fmt_writer.rs` — `FmtWriter`, which streams formatted text as one text
  string (definite when it fits in 256 bytes, chunked otherwise).
- `src/entries.rs` — the canonical order of map entries and a verified sort.
- `app/lib.rs` — the serde trait implementations that feed the library, and
  float conversion.
