# ordinum

The write path of a log-structured storage engine, written and verified in
Verus: batches and the pool that recycles them, the commit pipeline with its
queue and its sequence numbers, write groups, internal keys, and the per-thread
storage behind them.

- `src/` is the library. `src/db/record.rs` says how operations are encoded,
  `src/db/batch.rs` builds batches of them, `src/db/batch_object.rs` and
  `src/db/batch_pool.rs` say who owns a batch and when it is used again,
  `src/db/write_pipeline.rs` orders commits, `src/db/write_thread.rs` forms write
  groups. Functions named `law_...` state what holds of several functions
  together.
- `tests/` runs the library on concrete values.
- `app/` puts the library behind locks, so that threads can share it, and runs
  the waits that the library decides on step by step.

A few facts about the standard library are taken on trust: what
`Vec::shrink_to` and `String::from_utf8_lossy` do, that `std::hint::spin_loop`
returns, and that `std::io::Error` is a type. Each is declared where it is used,
with what is claimed of it.
