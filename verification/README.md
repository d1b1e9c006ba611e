# Spilling page store

A page store for a columnar (Parquet) writer. Completed pages stay in memory while
a budget shared by all columns has room, and the overflow goes to one temp file
shared by all columns.

- `src/` is the verified library. `store`, `budget` and `spill` decide where each
  page goes and where it is found again. `columns` states what holds of all columns
  together, in whatever order they are worked on: every page round-trips, memory
  keeps to the budget, spilled pages lie apart in the file, and a write that fits
  never opens it. `settings`, `table`, `text` and `progress` generate the wide,
  skewed table that exercises the stores. `blob` and `arrays` state what is taken
  on trust of `bytes`, `parquet` and `arrow`.
- `app/` is the command line program. It locks the shared state, does the file I/O
  that the library asks for and drives the Parquet writer.
- `tests/` runs the library against a real temp file and real Arrow arrays.

The library keeps no file and no lock. A put or a take that needs the file says what
to write or read, and the caller reports back what was done.
