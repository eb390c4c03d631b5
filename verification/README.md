# Cosmic Comic

A reader for comic archives (`.cbz`, `.cbr`), series folders and `.epub` books,
split in two: a library verified with Verus, and a thin application around it.

- `src/` holds what the reader decides and computes: finding and ordering pages,
  reading books, the state of the reader and what every message does to it, what
  is shown, and what the library of series keeps. Every function has a contract;
  `laws.rs` and the proof functions next to the code state what holds across
  functions.
- `app/` draws the window with libcosmic and does the input and output: files,
  the SQLite database, the network, the clipboard.
- `tests/` runs the library on concrete values.

The items whose doc comment starts with `Trusted:` are believed, not proved: they
hand work to `image`, `quick-xml`, `zip`, `url` and a few functions of std.
