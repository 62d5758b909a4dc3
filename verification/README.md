# waiter_manager

Decides what happens to transactions that wait for pessimistic locks, and proves
that the decisions are right. Written in Verus.

- `src/` is the verified library. `wait_table` holds those who wait, `manager`
  takes the decisions, `scheduler` is the way in. `model` says in mathematical
  terms what they do, and `laws` what holds of them as a whole.
- `tests/` runs the library on examples.
- `app/` is the unverified plumbing: the task queue, the event loop with its
  timers, the callbacks and the metrics.

The library never calls back, sleeps or sends. It hands `Action`s to its caller,
who performs them and reports back when a timer goes off.
