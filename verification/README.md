# github_importer

Imports a backlog of tasks (`tasks.json`) into GitHub issues, labels, a
Projects V2 board and parent / blocked-by links, resumably and without ever
creating an issue twice.

The library under `src/` is verified with Verus: each step's decisions
(whether a phase runs, what a task needs, how an answer is read and tallied)
are functions with contracts, and the properties the importer relies on are
proved. The loops that make the network calls, and the waits between them,
live in `app/`.

- `text`, `json`, `strmap`: strings as `Seq<char>`, a JSON model, and a
  string-keyed ordered map.
- `tasks`: backlog validation, issue titles, bodies and labels, `.env`
  settings, the console reports.
- `github`, `graphql`: what requests carry and what answers mean — retry
  decisions, pagination links, error messages, Projects V2 pages.
- `auth`: the device flow's answers, token handling, accounts and scopes.
- `secrets`: the vault format (sealing and opening a token) and the stores.
- `state`: workspace paths and the resumable import state.
- `importer`: the per-task decisions of each phase and the tallies.
- `commands`: preferences, sign-in status, previews and pre-run checks.

`app/` is the program around it: argument handling, files, HTTP, processes
and the run loop, each step's decision taken from the library.
