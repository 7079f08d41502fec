# openjd

Rules of Open Job Description, verified with Verus: the parameters of jobs, and snapshots of
file trees.

- `src/params`: merging the parameter definitions of several templates, checking and coercing
  values, resolving PATH parameters, and the symbols that templates read. What the expression
  language and the machine's floating point say of texts and numbers comes in as plain values
  (`readings.rs`).
- `src/snapshots`: what is hashed, uploaded and downloaded, in which order, and what is
  remembered of it. `file_upload.rs`, `file_download.rs` and `transfer.rs` take an upload or a
  download step by step, from one event to the next.
  `round_trip.rs` proves that what is uploaded comes back.
- `src/text.rs`: numbers as text, joining, comparing and sorting.
- `tests`: the library on given values. `tests/scenarios.rs` runs whole uploads and downloads on
  a disk and a store that are held in memory.
- `app`: the same operations on a real machine, with tasks, files, links and clocks.

Laws that relate several functions are public proof functions beside them.
