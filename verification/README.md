# timetracker

The logic of a small desktop time tracker (projects, time entries with
descriptions and notes, a live timer, week figures, history by day, billing
by the minute, invoices, and CSV / JSON / Markdown reports), written in Verus
and verified against its contracts.

## Layout

- `src/` — the verified library
  - `text.rs` — character-level helpers: trimming, decimal rendering and parsing
  - `dates.rs` — calendar dates, weeks starting on Monday, Russian date labels
  - `instants.rs` — stored RFC3339 timestamps, durations, the clock and the local time zone
  - `models.rs` — currencies, entries, link segmentation of notes, duration and money labels
  - `palette.rs` — the project palette and `#rrggbb` colors
  - `billing.rs` — paid minutes, oldest-first allocation, what an invoice bills
  - `exporter.rs` — report totals, CSV records, the Markdown report
  - `invoice.rs` — the invoice page as HTML
  - `store.rs` — what gets stored and read back: notes, migrations, history by
    day, project figures, export rows, and the writes to the entries table
  - `views.rs` — the decisions the screens make: tabs, periods, form fields, editors
  - `icons.rs` — icon paths
- `tests/` — tests run against the compiled library
- `app/` — the program around it: SQLite, report files, PDF rendering, and the
  amounts kept as floating-point numbers

The laws the library keeps are public proof functions whose names start with
`law_`.
