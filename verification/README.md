# duct

Child processes as values. Commands, pipelines and redirections are put together first and run
later:

```rust
let expression = sh("echo hi").pipe(sh("sed s/i/o/")).capture_stderr();
```

## Layout

- `src/` is a Verus library that decides what happens when an expression runs. It touches no file,
  process or thread. It hands out requests, one at a time, and takes the replies.
- `app/` drives the library on a Unix system: it opens files and pipes, starts processes and
  threads, and wraps the library for paths, files and operating system strings.
- `tests/` runs expressions on a small operating system that lives in memory, and follows the
  conversation request by request.

## What is proved

`src/model.rs` has the mathematical counterparts of the types, and `src/semantics.rs` says what an
expression does: a function from the expression, the context it starts in and the replies it gets to
the steps it takes and the result it comes to. `Expression::run`, `Expression::read`, `Job::start`
and the `advance` methods are proved to take exactly those steps.

What follows from the semantics is proved in these files:

- `src/laws.rs`: what pipes, sequences, redirections, environments and ignored statuses come to.
- `src/ownership.rs`: handles are neither leaked nor used after they are gone, and nothing is held
  open while captured output is waited for.
- `src/progress.rs`: every run comes to an end after a limited number of requests.
- `src/threads.rs`: threads are waited for. Only when a run fails with an error of the operating
  system may the two threads that collect captured output be left to end by themselves.
- `src/sequences.rs`: an expression minds only the replies that it needs, and sequences can be
  grouped in any way.
- `src/pipelines.rs`: pipelines can be grouped in any way.
- `src/words.rs`: an expression whose commands all have words asks only for commands that name a
  program.

## What is trusted

`std::str::from_utf8`, `std::io::Error::kind` and `std::sync::Arc::clone` do what their
documentation says. `app/` answers requests as `Request` describes them.
