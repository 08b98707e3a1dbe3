# lsef

A file lister in the spirit of `ls`: kinds, sizes, modification times,
recursive listings, filters, sort keys, summaries, icons, secret-file marks,
and table, plain, CSV, JSON and YAML output. The logic is written in Verus and
proved against its contracts; the program around it reads the file system and
the clock and prints what the library computes.

## Layout

- `src/` — the verified library.
  - `args.rs` parses the command line into a `Config`.
  - `collect.rs` decides what a listing holds: entry kinds, hidden and
    ignored names, type filters, sort order, and the `Collector` state
    machine that asks for paths and directories and takes what was read.
  - `format.rs` turns a `Listing` into text in each output mode; `size.rs`
    and `time.rs` format sizes and times; `model.rs` holds the data types
    and totals; `text.rs` holds string and sequence helpers.
  - `lister/` is a second, stand-alone lister with a long view
    (permissions, links, owner, group, Git state), `.gitignore` rules of
    every parent directory, `LS_COLORS` colours, a proleptic Gregorian
    calendar for clock-less systems, and the `Walk` state machine.
- `app/` — the program: argument and environment access, file-system
  reads, the C clock and user database, and printing. Run under the name
  `lsef-standalone` (a link or copy of the binary) it is the stand-alone
  lister; under any other name it is `lsef`.
- `tests/` — tests of the library on concrete values.

Each public function states what it returns in its `ensures`; laws that
relate several functions (the order that `--reverse` turns around, what the
filters let through, the depth limit of a walk, that a day number names one
date, and others) are public proof functions beside the code they speak of.
