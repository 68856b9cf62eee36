# hybrid_cache

Core of a bounded RAM + SSD hybrid cache, written in Rust and verified with
Verus. Contracts say what the functions return and what they change, and Verus
proves them. What the allocator or other owners of a value decide (whether there
is room, how much of it, how many handles a value has) is left open where it is
decided; functions that take it as an argument say what follows from it.

- `src/` is the verified library.
  - Memory tier: `memory`, `memory_arena`, `memory_directory`, `memory_engine`,
    `slot_chains`, `eviction`, `expiry`.
  - Region index: `index`, `index_storage`, `index_v2`.
  - Policies: `policy`, `host_writes`, `device_health`, `miss_guard`,
    `pending_write`.
  - I/O: `io_backend`, `io_engine`, `ring_driver`. These decide; they make no
    system calls.
  - Persisted formats and their offline verification: `format`, `checkpoint`,
    `bucket_file`, `hybrid_manifest`, `region_file`, `region_verify`,
    `checkpoint_verify`, `checkpoint_cross`, `offline_file`, `offline_verify`,
    `management`, and what follows from their contracts in `offline_laws`.
  - Metrics: `metrics`, `openmetrics`.
  - Shared pieces: `bytes`, `checksum`, `containers`.
- `app/` is ordinary Rust around the library: files and their locks, positioned
  I/O and `io_uring`, threads, clocks and blocking waits.
- `tests/` runs the library.

What is true of the library as a whole stands in public proof functions whose
names begin with `law_`. Time is always an argument, and shared state is a value
that the caller puts behind a lock of its own.
