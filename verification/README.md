# blackbox

A flight recorder for a developer's day: a daemon polls git repositories, notes AI coding
sessions, and a dashboard shows what happened.

`src/` is the verified library, in Verus. Every function states what it returns, and the
`law_...` proof functions state what holds across functions.

| Part | Modules |
|------|---------|
| The poll loop, as a machine | `poll_loop`, `poller`, `repo_states`, `snapshot` |
| The daily notification | `notifications` |
| The daemon's process, status and health | `daemon`, `platform`, `status`, `doctor`, `report` |
| AI coding sessions | `claude_tracking`, `session_poll` |
| The dashboard | `tui`, `feed`, `activity`, `screen` |
| Texts, numbers, paths, times, sorting | `text`, `decimal`, `paths`, `path_order`, `path_set`, `time`, `sorting` |

The machines (`PollLoop`, `SessionPoll`, the daily notification) wait in each phase for the
outcome of one piece of outside work; the outcome decides the next phase. The program in
`app/` does the work: files, processes, signals, the terminal, the database.

What is taken on trust stands behind a few small functions: `String::push`, reading and
writing RFC 3339 times and milliseconds with `chrono`, and reading a member of a JSON object
with `serde_json`. Their doc comments say what is claimed of them.

`tests/` runs the library on concrete values, and holds its paths, texts, numbers and times
against those of the standard library and `chrono`.
