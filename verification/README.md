# trx

A minimal issue tracker that lives in a git repository: issues, events and runs of checks are
lines of JSON in `.trx/`, and merges of these files need no help.

The library in `src/` holds the rules: how a log of snapshots becomes a set of issues, which
issues are ready, what a change records, when an issue may be closed, how the activity is
counted and shown, and what each key does in the interactive view. It neither reads nor writes
files. Each function states in its contract what it returns, and the laws that span several
functions are proof functions beside them.

`app/` is the program around it: arguments, files, the lock, git, the editor, the service and
the terminal. Started under the name `trx-tui` it shows the interactive view.

`tests/` runs the library on concrete values.

| Part | Modules |
| --- | --- |
| Issues and their storage | `issue`, `store`, `jsonl`, `legacy_crdt`, `id`, `attributes` |
| History | `events`, `timeline`, `agent_ctx` |
| Checks before closing | `verification`, `evidence` |
| Work on issues | `create`, `edit`, `editing`, `import`, `plan`, `config` |
| Questions | `query`, `relations`, `graph`, `tree`, `robot`, `dates` |
| Output | `report`, `render`, `markdown`, `messages`, `stats`, `charts`, `calendar`, `swimlane` |
| Interactive view | `tui`, `form`, `selection`, `panes`, `overlays`, `dashboard` |
| Service | `service` |
| Foundations | `text`, `time`, `path`, `json`, `error`, `style`, `sort`, `filter` |
