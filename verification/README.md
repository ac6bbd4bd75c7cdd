# scylla

A terminal reader for web novels: a library of books with reading
sessions, a paged reader, a job queue that scrapes books, chapters and
covers through site plugins, and a settings screen. The logic is written
in Verus and proved against its contracts; the terminal around it is plain
Rust.

## Layout

- `src/` — the verified library.
  - `library.rs`, `models.rs`: books, sessions, statuses, the filter, the
    AI ranking and its genre facet.
  - `reader.rs`: line wrapping and paging.
  - `job.rs`, `worker.rs`, `messenger.rs`, `events.rs`: jobs, the
    scheduler (as a state machine returning actions), and the messages
    between the screen and the worker.
  - `library_page.rs`, `reader_page.rs`, `jobs_page.rs`,
    `settings_page.rs`, `key_handler.rs`: what each page and the screen as
    a whole do with a key.
  - `*_dialog.rs`, `session_picker.rs`, `backend_picker.rs`,
    `chapter_results.rs`, `filter_dialog.rs`: the dialogs; `palette.rs`:
    the command palette (`:`), a list of actions narrowed by what is typed.
  - `plugin_config.rs`, `config_file.rs`, `cookie_store.rs`, `settings/`,
    `paths.rs`: plugin settings, their JSON files, cookie files, and where
    files live.
  - `scrapers/`, `plugin_api.rs`, `plugin_install.rs`, `template.rs`: the
    plugin registry, the plugin interface, installing plugins from GitHub
    releases, and the template plugin.
  - `text.rs`, `urls.rs`, `chapters.rs`, `backends.rs`: text, URL, chapter
    and backend helpers.
- `tests/` — tests run against the compiled library.
- `app/` — the terminal program: key reading and drawing (ratatui,
  crossterm), the SQLite store (rusqlite), HTTP and plugin loading, files,
  logging and the worker thread.

## Files

Configuration lives in `scylla-reader/` in the local configuration
directory (`~/.config` on Linux): `settings.json`, `libraries.json`,
`plugin-<domain>.json` for each plugin, and `plugins/plugin-<domain>.wasm`.
Cookie text files live in `~/.config/scylla-reader/` (following `HOME`).
