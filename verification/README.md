# pubsub_rs

Publish/subscribe helpers with machine-checked contracts: queues, ring
buffers, priority and time-ordered lists, a dictionary, a histogram, an
asynchronous observer, a subject's subscription table, a pool allocator's
bookkeeping, the slot protocol of a
lock-free ring buffer and the decision logic of waitable objects and task
loops.

## Layout

- `src/` — the library, verified with Verus. Each module under `src/tools/`
  states the behaviour of its functions in `requires`/`ensures` over a
  mathematical view (`Seq`, `Map`, integers), and states the properties that
  span several calls as public proof functions (`law_*`, `lemma_*`).
- `tests/` — unit tests of the library, run against the compiled crate.
- `app/` — a demonstration program and the parts that Verus does not take:
  threads, mutexes and condition variables, atomics, the asynchronous
  runtime, the subject's lock and dispatch, the global allocator and the
  floating-point statistics. These call into the library for their
  decisions.

Types whose methods change them take `&mut self`; callers that share them
between threads keep them behind a lock of their choice.
