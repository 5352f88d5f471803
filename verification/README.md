# crow

crow runs student compilers against a shared, crowd-sourced set of tests. This crate is its
verified core: the rules of the backend, the executor and the command line client, each with a
contract that Verus proves.

## Layout

- `src/` — the library, verified with Verus:
  - `queue.rs` — the fair queue: teams take turns, each team's oldest task first.
  - `runners.rs` — registered executors, who works on what, test tastings, the queue listing.
  - `catalog.rs` — who may add, edit and delete tests, and when a test is provisional.
  - `submissions.rs` — moving the final task between categories, rerunning final submissions.
  - `access.rs` — who may act on which team, and the small choices of the task endpoints.
  - `routes.rs` — the backend's routes and the runner-token and admin guards before them.
  - `execution.rs` — run outcomes, task statistics, and how runs are stored and read back.
  - `grading.rs` — per-category counts, formula variables, test classification.
  - `formats.rs` — the markdown test file format.
  - `entries.rs` — the insertion-ordered maps (`indexmap`) the format reads sections and values into.
  - `report.rs` — the layout of a run's report as the client prints it.
  - `client.rs` — the client's synchronization and test-running decisions.
  - `executor.rs` — executor polling, container configuration, reading container output.
  - `storage.rs` — the git commands that keep repository mirrors and export revisions.
  - `github.rs` — the GitHub integration's decisions.
  - `users.rs`, `config.rs`, `ids.rs`, `modifiers.rs`, `text.rs` — shared types and text.
- `tests/` — tests of the library on concrete values.
- `app/` — a command line around the library: syncing and uploading tests, the in-container
  shim, keeping repository mirrors and exporting revisions, printing grading formulas, and
  issuing tokens. It is not the whole system: the backend's web server and database, the
  executor program, and running tests against a compiler are not included here.
