# virtual_fs

A read-only virtual file system over archives (ZIP, tar, tar.gz, tar.xz, 7z,
RAR), the WebAssembly feature sets a module needs, and advisory file locking,
written in Verus: the functions of `src/` carry contracts that Verus proves
(where a result depends only on an outside value that no contract can name,
such as the kind of an I/O error, none is claimed), and the laws the library
keeps are stated as proof functions. Calls into the archive, compression and
WebAssembly crates stand behind trusted wrappers whose contracts name what
those crates compute.

Layout:

- `src/path.rs` — path normalization and rendering, with its laws.
- `src/index.rs`, `src/tree.rs` — the index of an archive's paths, the cache
  of missing paths, and the read-only file system operations over them.
- `src/indexed.rs` — file systems whose files are held in memory, read from
  tar and 7z bytes or from RAR entries.
- `src/zipfs.rs`, `src/lru.rs` — ZIP archives, decompressed on demand into a
  bounded least-recently-used cache.
- `src/archive.rs` — archive formats, choosing the reader by a name's suffix,
  decompression of tar streams, the steps of the walk over a RAR archive, and
  the file system over any archive.
- `src/features.rs`, `src/detect.rs` — WebAssembly feature sets and their
  detection from a module.
- `src/flock.rs` — the advisory lock state machine.
- `app/` — reading archives from disk, walking RAR entries (the RAR library
  opens archives by path), serialization, and the platform glue.
