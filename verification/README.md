# threadpools

A fixed-size thread pool whose decisions carry machine-checked proofs.

- `src/pool.rs`: the `Task` trait, the task queue shared by the workers
  (first in, first out) and the step each worker takes on it (run the
  oldest task, wait, or exit once shutdown is requested), with laws on
  ordering, shutdown and conservation of tasks.
- `src/barrier.rs`: the arrival count behind the pool's barrier.
- `src/chunks.rs`: `ChunkSplitter`, which cuts a range into balanced,
  contiguous chunks, with the partition law.
- `src/tasks.rs`: a counter task and a range-summing task, and
  `get_subslice_sum_tasks`, with the law that the chunk sums add up to the
  array sum.
- `app/`: `StandardPool` itself: threads, the mutex and the condition
  variables that drive the verified steps.
