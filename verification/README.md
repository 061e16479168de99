# topolyx

Reading and checking `.tlyx` (Topolyx) mesh files, with the core proved correct by Verus.

A `.tlyx` file is a binary container with a JSON chunk (scene and mesh metadata) and a BIN
chunk (little-endian arrays the metadata points into).

## Layout

- `src/` — the verified library (`topolyx`):
  - `reader.rs`: splitting the container; JSON padding and header-version checks.
  - `data.rs`: decoding the bytes a `DataDescriptor` refers to.
  - `grouped.rs`: grouping decoded arrays per element by topology field or `semantic`.
  - `faces.rs`: face traversal, fan triangulation (vertex, corner and face index buffers),
    per-corner reindexing.
  - `validate.rs`: the full validity pass over a parsed file.
  - `file.rs`, `error.rs`, `util.rs`: the data model, the error type, shared spec helpers.
  `f32` values are carried as their IEEE-754 bit patterns.
- `app/` — unverified glue: file I/O, the serde parse of the JSON chunk, `Display` messages,
  and the floating-point parts (transform determinants, world-space conversion).
- `tests/` — tests of the library.
