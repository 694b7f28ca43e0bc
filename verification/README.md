# kernel

The logic of a small x86_64 kernel, verified with Verus: a bitmap page-frame allocator, a
bump heap allocator, an event ring buffer and event log, the S3-FIFO page replacement policy
(with a FIFO cache to compare it against), cooperative round-robin scheduling, the physical
memory summary, the address arithmetic of the user page area, and the decisions of the
user-area page fault handler.

- `src/` — the verified library. `s3fifo_model.rs` states S3-FIFO as functions on sequences;
  `s3fifo.rs` implements it on fixed-capacity `heapless` queues (whose methods are trusted
  wrappers in `queues.rs`) and is proved to follow the model.
- `tests/` — tests of the library, including the kernel's S3-FIFO self tests.
- `app/` — the QEMU launcher and the kernel's hardware side: the serial console, page tables,
  exception handlers, and the global instances of the library's state behind spin locks.
