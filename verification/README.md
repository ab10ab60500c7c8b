# unix_io

The decisions of an I/O backend for Unix files, verified with Verus: which system call comes
next, what its answer means, and which request is completed with what.

- `src/` is the library. It makes no system call: an operation says what is to be done next, as
  a value, and is given the answer.
  - `error`: what a failed call is reported as.
  - `iovec`: lists of buffers for vectored writes.
  - `write`, `write_laws`: positioned writes that go on until every byte is written, and what
    they leave in the file.
  - `shared_wal`: byte locks on, and memory maps of, the file through which processes share a
    write-ahead log.
  - `sync_queue`, `sync_laws`: the queue between those who ask for a sync and the worker that
    performs it, and what holds of its every history.
  - `file`, `unix_io`: an open file, and the backend as a whole.
  - `text`: numbers in messages.
- `app/` is the backend itself: threads, system calls and callbacks around the library.
- `tests/` runs the library.
