# sangfroid

A load balanced thread pool, verified with Verus.

The workers are kept in a binary heap ordered by the number of pending tasks
of each worker. A new job goes to the least loaded worker, whose count is then
raised; when a worker reports a finished job, a balancer lowers its count. Both
updates restore the heap order.

Layout:

- `src/` — the verified library: jobs (`job`), messages (`message`), workers
  and what a worker thread does with a message (`worker`), the worker heap
  with its uid index (`pool`), the scheduling, balancing and termination
  decisions with their laws (`threadpool`), and the channel types they carry
  (`channel`).
- `app/` — the threads: spawning workers and the balancer, sharing the heap
  behind a mutex, joining everything on termination, and error types with
  `Display`.
- `tests/` — tests of the library, playing the worker and balancer threads on
  the test thread.
