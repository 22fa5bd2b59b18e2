# deloxide

Deadlock detection for multithreaded programs, with the detector's logic
verified by Verus.

## Layout

- `src/` — the verified library.
  - `detector.rs` and `detector/` — the detector: which threads hold, wait for
    and are woken from which locks (mutexes, reader-writer locks, condition
    variables), the wait intents that feed the wait-for graph, validation of
    cycles before they are reported, lock order checking, and the simpler
    hook-based detector (`lock_hooks.rs`).
  - `graph/` — the wait-for graph (kept acyclic; an edge that would close a
    cycle reports the path back) and the lock order graph with its cache.
  - `graph.rs` — a plain wait-for graph with depth-first cycle search.
  - `logger/graph_logger.rs`, `graph_logger.rs` — the thread-lock graphs kept
    for visualization.
  - `stress.rs` — stress testing decisions (random preemption and
    component-based delays).
  - `showcase/encoder.rs` — the compact form of logged events and deadlock
    reports, and the compression and URL-safe encoding of a packed log.
  - `paths.rs`, `relation.rs`, `sorting.rs`, `fx.rs` — graph paths and
    reachability, relations stored as maps of sets, sorting, and the
    `fxhash` containers.
  - `contention.rs` — the count of threads on a lock's slow path.
- `tests/` — tests of the library on concrete values.
- `app/` — the program and runtime around the library: the global detector,
  tracked `Mutex`/`RwLock`/`Condvar` and threads, the event log, the deadlock
  callback, the C interface and the `deloxide <log file>` command that opens
  the web visualization.

Laws of the library are public proof functions whose names start with `law_`.
