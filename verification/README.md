# chickenscratch_core

The engine of ChickenScratch, a writing app for fiction writers: the `.chikn`
project format (a folder of Markdown documents, YAML manifests and sidecars,
with embedded git history), conversion to and from Scrivener projects, and
the editing logic behind the terminal and desktop editors. The functions
in `src/` are verified with Verus against their `requires`/`ensures`
contracts, except the few marked `#[verifier::external_body]`: thin
wrappers around std, uuid, chrono and regex calls, whose contracts are
trusted and say what those calls are documented to do.

## Layout

- `src/` — the verified library.
  - `models`, `hierarchy`, `hierarchy_laws` — projects, documents and the
    binder tree, with the laws of finding, adding, removing and moving nodes.
  - `project/` — format checks, document paths (split by
    `std::path::Path::components`), reading and repairing a loaded
    project, the checks of the walk of the content folders on load
    (`walk`) and of every document's targets before a write (`targets`),
    fidelity probing and write permits, sidecar metadata, deletion, safe
    subfolders, new projects.
  - `scrivener/` — the `.scrivx` model, import (`converter`), export
    (`exporter`, with the line structure of the binder XML in
    `binder_lines`) and which way a conversion goes (`direction`).
  - `slug`, `paths`, `text` — names, paths and text helpers.
  - `compile` — the manuscript's markdown in compile order.
  - `revisions` — word diffs between revisions and the records shown for
    revisions, file changes and credentials.
  - `markdown`, `tui`, `editing`, `session` — inline markdown styling,
    the binder listing and text edits of the terminal editor, comments and
    new binder items, and what each key press does.
  - `process`, `snapshots`, `ids`, `error` — bounded pandoc runs (the
    combined output cap and each step of a run), snapshot
    naming and sizes, fresh ids and times, errors.
- `tests/` — tests of the library, run against the real outside crates.
- `app/` — the `chikn-converter` command line and the I/O around the
  library: reading, probing and writing projects on disk, pandoc, git,
  compiling.
