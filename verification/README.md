# kare_core

Deletion triage for test suites: JUnit XML reports (PHPUnit first) are parsed
into runs, stored in a SQLite history, and analysed for slow, flaky and
regressed tests; the findings, a health score and an optional cost figure make
up a report that renders as text or Markdown.

The library is written in Verus and verified. What SQLite, quick-xml and
the time crate do is trusted, not proved: the contracts of the functions that
call them state what goes into each call and what the library does with the
answer, and record each database answer against the connection that gave it,
but what a read of the history gives back of an earlier write is not proved.

- `src/model.rs` — statuses, results, runs and how sharded runs merge.
- `src/parser/` — the JUnit reader over quick-xml's token stream.
- `src/db.rs` — the history store over rusqlite, and timestamp
  normalisation over the time crate.
- `src/analysis.rs` — findings, score and report.
- `src/render.rs`, `src/text.rs` — text and Markdown output.
- `src/ci.rs`, `src/config.rs`, `src/sort.rs` — CI detection, settings, and a
  stable descending sort.
- `app/` — the `kare ingest` command line, reading files and the environment,
  opening the database on disk and loading `kare.toml`.

Durations are held in whole microseconds and fractional quantities in
millionths, so the verified code does no floating point.
