# honu

`honu` records, imports and searches shell history kept in a SQLite database.

- `src/` is the library, verified with Verus: the zsh history parser
  (unmetafying, plain and extended lines, multi-line records), line splitting,
  record fingerprints and execution identifiers, the reconciliation of a new
  history snapshot with the previous one, the database's row decoding and
  transactions, the search candidates' layout, the backup procedure as a state
  machine, and the batching of search candidates.
- `app/` is the `honu` command: argument parsing, file access, the progress
  spinner and the interactive finder.
- `tests/` exercises the library against SQLite.
