# hyperloop

A priority-based runtime for stackless tasks on small machines, with its
scheduling logic verified by Verus.

## Layout

- `src/` — the verified library.
  - `priority_queue` — a fixed-capacity queue: a stack that producers push
    onto and a binary heap that the consumer takes items from, first the
    largest (`Max`) or smallest (`Min`) key.
  - `executor` — which task runs next: each wake queues a task at most once,
    and tasks are handed out highest priority first.
  - `timer` — the tick counter, the queue of wakers waiting on it, delays
    and timeouts; `timer::list` is a list kept sorted by key.
  - `interrupt`, `task` — yielding, interrupt-driven futures and tasks.
  - `priority_channel`, `notify`, `pubsub` — channels between tasks. The
    priority channel buffers received items in the library's own
    `PriorityQueue`, so that what the buffer holds and the order in which it
    hands items out are stated and proved.
  - `waker`, `array_queue`, `atomic_waker` — the wakers and the shared
    queues and waker cells of `crossbeam_queue` and `futures`, behind
    wrappers whose contracts say what the library relies on.
- `app/` — the `Future`, `Stream` and waker plumbing around the library:
  type-erased task handles, the polling loop, timer futures.
- `tests/` — tests of the library.

## Design notes

- Every queue of the library is a plain sequential data structure: pushing
  onto a `PriorityQueue` (directly, or through `get_sender` and a
  `PrioritySender`) takes `&mut` access to it. The queue is not lock-free,
  so producers in interrupt handlers or on other cores need a critical
  section, or must go through the shared `crossbeam_queue` and `futures`
  cells that the channels use.
- The fixed capacity `N` of each queue and of the task table is kept as an
  invariant (`len() <= N`, pushes beyond it are refused), but the slots
  themselves are held in a `Vec` that is allocated once, when the queue or
  executor is made; nothing is allocated afterwards. The sorted list of
  `timer::list` grows as items are inserted.
- The library decides, and says in its contracts, which tasks are to be
  woken; waking them is left to the caller (`app/` does it). `tick` and
  `take_expired` hand out the expired tickets, earliest first; a yield's
  poll says whether to wake its task; `try_send` and `publish` say which
  sends succeeded, whose receivers are then woken through
  `receiver_waker`; a notification's waiting task is woken through
  `waiter`.
