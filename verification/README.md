# mmbak_parser

A library for MoneyManager `.mmbak` backups, verified with Verus, and the
`mmbak` program built on it.

- `src/` is the verified library:
  - `types.rs`, `reader.rs`: the records of a backup (transactions, accounts,
    categories, currencies), how database rows become records, which amounts
    make up each account's balance and the totals, and the queries on a backup.
  - `archive.rs`, `writer.rs`, `unpack.rs`, `roundtrip.rs`, `bytes.rs`: the
    archive format; writing an archive, reading one back, and the proof that
    reading gives back what was written.
  - `tui.rs`, `events.rs`: the state of the terminal viewer (account list by
    group, transaction list with date dividers, cursors and focus) and the
    keys it answers.
  - `sync.rs`: the rows appended to the spreadsheet when balances are
    synchronised, and the messages for failed calls.
  - `text.rs`, `clock.rs`, `error.rs`: text helpers, time, errors.
- `app/` is the program: the SQLite reading, the terminal drawing and event
  loop, the Google Sheets calls, and the arithmetic and formatting of the
  floating-point amounts, which the library keeps as bit patterns.
- `tests/` runs the library on concrete backups and archives.
