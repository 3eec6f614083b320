# crawlee_storage

A filesystem-backed request queue, verified with Verus.

Each request of a queue is a JSON file in the queue's directory, named by a hash of the
request's unique key. Next to the caller's payload the file carries an `id` and an `orderNo`.
The order number is a signed timestamp in unix milliseconds:

- `null`: the request has been handled;
- positive: a regular request, fetched in ascending order;
- negative: a forefront request, fetched before the regular ones, newest first;
- a magnitude that lies in the future: the request is locked until that moment.

Since the lock is in the file, consumers that share a directory coordinate without a service.

## Layout

- `src/` is the verified library. It decides what is read, written and reported, and holds the
  index; it does no I/O. An operation that needs a file in the middle is a sequence of steps:
  `add_batch_of_requests`, `add_next` and `add_written`, for instance, with the request's file
  written before `add_written`. The contract of a step says how the model of the queue
  (`QueueView`) changes and what is to be written. `src/laws/` states what holds across steps
  and operations.
- `app/` runs the steps on a file system, with `tokio`, and binds the queue to Python.
- `tests/` runs the library on a directory in memory.

JSON is read and printed by `serde_json`, moments are printed by `chrono`, and hashes are
computed by `sha2`. What the library relies on of these is stated at the few functions that call
them, each marked `external_body`.
