# messaging_kernel

A messaging kernel whose core is verified with Verus: the Qiss binary
format (headers, checksummed frames, a reader and a writer of typed
values) and the Precursor broker's state machines (queues, partitioned
topics, producers and consumers, consumer groups, Raft consensus,
replication, security, compression dispatch, storage catalogues and a
memory pool), and the migration tool's reading of its platform list.

- `src/` is the library. Every function in it carries a `requires` /
  `ensures` contract that Verus proves; laws that span functions stand
  as public proof functions beside the code they speak of. Calls into
  outside crates (the codecs, `bytes`, `crc32fast`, `num_cpus`, the clock)
  go through small trusted wrappers whose contracts state what those
  crates document.
- `app/` is ordinary Rust around it: the periodic tasks and message loops,
  file and socket I/O, and the floating-point measurements.
- `tests/` runs the library on concrete values.
