# Project handoff

Bounded, project-local handoff checkpoints: which tasks a project has, which
facts were recorded of them, and which session works on which task. A
checkpoint is fact persistence. It never executes a command, follows a link, or
grants authority.

## Layout

- `src/` is the verified library. It works on plain values: a checkpoint
  directory is a list of named files, the delivery tables are lists of rows, and
  everything that talks to a runner is a step from a state and an event to the
  next state and what has to be done.
  - `text`, `table`, `json`, `codec`, `digest`, `path`: texts, ordered tables,
    JSON values and their text, SHA-256 digests, project-relative paths.
  - `event`, `request`: the normal form of an event, and checked requests.
  - `records`, `decode`, `round_trip`, `checks`: the managed files and what
    makes them valid.
  - `directory`, `writing`, `commit`: reading, sizing and replacing files.
  - `actions`, `mutations`, `appending`, `lifecycle`, `anchor`, `checkpoint`, `reading`:
    the requests, the two entry points, and which files a request reads.
  - `jobs`, `markdown`, `reply`, `failure`: what is shown.
  - `store`, `outbox`: the server's bounded delivery tables.
  - `exchange`, `server`, `dispatch`, `flush`, `tool`: the server's side.
  - `runner_job`, `cli`, `observations`, `host`: the runner's own jobs, the
    local command, reports from outside, and the operating system's answers.
  - The modules whose names end in `laws` state what holds over several calls:
    a saved event is read back, a refusal changes nothing, an archived task stays
    what it was, a binding is immutable, an event leaves the outbox only when it
    was acknowledged.
- `tests/` runs the library on concrete values.
- `app/` is ordinary Rust around it: files, locks, SQLite, TOML and timeouts.
