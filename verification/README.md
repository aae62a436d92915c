# stdio

The standard streams of a process, verified with Verus.

- `src/` is the library. `stdin`, `stdout`, `stderr` and `print` are what programs use; `raw`
  handles streams that are not open; `buf_reader` and `line_writer` are the buffers, and `line_ends`
  shows what the latter keeps about complete lines; `sync` holds
  the locks; `source` and `sink` are the host's ends of the streams. The modules whose names end in
  `laws` state what holds of several operations together.
- `app/` performs the requests of the library on the file descriptors of the process, waits for
  locks, and offers the traits of `std::io`.
- `tests/` runs the library on given answers of the host.

The library never reads or writes by itself. An operation notes what it asks of the host and uses
the answers that are there. When they run out it fails with `Error::Unanswered`; the caller looks
up the request with `pending`, performs it, goes back to the state before the operation, adds the
answer with `answer`, and repeats. When nothing is pending, `settle` forgets the requests.
