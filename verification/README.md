# platoon

A single-threaded asynchronous runtime for Rust, built around state machines
whose behaviour is proved with Verus.

- `src/` is the verified library: the task life cycles (`task`, `raw_task`,
  `executor`, `runtime::executor`), the decisions of the main loop and
  its first-in-first-out run queue (`runtime`), the timer alarms and timers (`clock`, `time`), the readiness
  bookkeeping of I/O sources (`reactor`, `tick_reactor`), the encoding of
  readiness events (`sys`), the synchronization primitives (`sync::semaphore`,
  `sync::list_semaphore`, `sync::oneshot`) and an arena-backed doubly linked list (`list`). Each
  public function states what it returns and changes; the laws that relate
  several operations are public proof functions named `law_*`.
- The library never wakes a task itself. An operation that makes a waiting
  task ready hands that task's waker back to the caller (in its result or
  appended to a `Vec<Waker>`), and its contract says exactly which wakers
  come back, so that "the waiting task is woken" is a stated property of the
  library and the caller only has to wake what it is given. A poll takes the
  polling task's waker by value and states where it is kept; the readiness
  bookkeeping keeps a poller whose waker wakes the same task in its place.
- `app/` is the runtime around it: the event loop, futures and handles,
  wakers, the `epoll` poller (through `polling`) and TCP networking.
- `tests/` exercises the library on concrete values.
