# pwned_passwords_downloader_rs

A downloader for the password hash ranges (00000-FFFFF) of the Have I Been
Pwned service, with a core that is verified with Verus.

- `src/` is the verified library. It holds every decision: which request to
  make, what an answer leads to, when to try again and for how long to wait,
  which steps write a file, what the ETag cache keeps, and what a run has come
  to. Each function has a contract, and the properties that span several
  functions are proved as `law_..` proof functions beside them.
- `src/outside.rs` holds what is believed about other code: short contracts for
  calls into `std`, `rand` and `reqwest`.
- `app/` is the program around the library: the command line, the network, the
  files and the progress bar.
- `tests/` runs the library on concrete values.

The library never blocks. Where a task needs input or output, it offers a small
state machine (`Download`, `ResponseWrite`, `FileWrite`, `CombinedWriter`): the
program performs an action and reports what came of it.
