# runtime-from-scratch

A runtime for asynchronous tasks in four sizes, written in Verus: an executor for one future, an
executor with a queue of tasks, an executor on several threads that steal tasks from each other,
and the same with a reactor for sockets and timers, on which an echo server runs.

- `src/` is the library. It decides what is to be done next and keeps the books: tasks, queues,
  wakers, join handles, registrations with the reactor. Everything in it is verified but for eight
  constants of the C library, the numbers of error codes, epoll operations and flags: what
  `src/sys.rs` states of them is trusted, and holds for Linux targets only.
- `app/` is the program around it. It polls the futures, runs the threads and makes the system
  calls, one step of the library at a time.
- `tests/` runs the library.

The laws of the library are the public proof functions whose names begin with `law_`. Among them:
a worker never sleeps while a task waits; no task is polled without a reason, and none is lost but
for want of the receiving end of its channel; the value of a finished task reaches the task that
waits for it, once; a waker that is registered with the reactor is woken once; a client gets one
answer for each piece that it sent, of the same length and in the same order. What holds of whole
runs of the executors stands in `src/queue_run.rs` and `src/steal_run.rs`: provided that each
future has its task woken once for each poll that leaves it pending, they are done exactly when each
task has been polled to its end exactly once.
