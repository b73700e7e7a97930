# taskcap

The core of TaskCap, a small desktop task list with a floating island, reminders,
focus timing and natural-language quick add, written in Verus: every function of
the library carries a contract that Verus proves.

## Layout

- `src/` — the verified library.
  - `parser.rs`, `lexer.rs`, `text.rs` — the quick-add grammar (dates, times,
    repeat words, priority marks, `#tags`, `+project`, `/30m` estimates).
  - `store/` — the task list: ordering and filters (`order.rs`), queries,
    edits, the current-task rules, completion and repeats, focus timing and
    postponing, tags and projects, CSV and Markdown export, archive import.
  - `csv.rs` — CSV quoting, reading, and the cell readers used by import.
  - `reminder.rs`, `deeplink.rs`, `panel.rs`, `config.rs` — reminders that fire
    once, `taskcap://` links, panel queries and shortcuts, settings.
  - `clock.rs`, `ids.rs` — instants and identifiers; calendar work goes through
    `chrono`, identifiers through `uuid`, each call behind a small trusted wrapper.
  - `laws.rs` — properties that span several operations.
- `tests/` — tests run against the compiled library.
- `app/` — ordinary Rust around the library: the SQLite database, the settings
  and export files, the records the front end reads, the reminder poll and deep
  links.
