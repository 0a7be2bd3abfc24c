# databend_core

Verified parts of a data warehouse, in Verus.

- `src/` is the library. It decides and computes: which bytes of a Parquet file to read
  next, whether they can be decoded and what they say, which schemas can be converted to
  Arrow, how files are read in batches, how leaf columns are numbered and selected, how row
  counts add up, when a snapshot replaces a state machine, how log entries are applied, and
  how a sequence is dropped. Each function states what it does, and Verus proves it. What
  holds of several functions together is stated in the proof functions whose names start
  with `law_`.
- `app/` talks to storage, catalogs and other services, and hands what they answer to the
  library.
- `tests/` runs the library on concrete values.

The library calls the crates `parquet`, `arrow-schema`, `arrow-ipc`, `base64` and
`openraft`. What it takes from them on trust stands in the doc comments of the functions
marked `#[verifier::external_body]`.
