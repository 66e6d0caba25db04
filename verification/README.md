# copanion

`copanion` is a terminal companion for studying a codebase: it keeps a packet
of tracked files, inline notes and question threads per project, shows them
beside the source (or beside a git diff under review), exports the questions
that wait for an agent's reply, and takes the agent's answers back.

The library under `src/` is written in Verus: its functions carry
`requires`/`ensures` contracts over mathematical models (`Seq`, views of each
type) and are proved.

- `model`, `storage`, `cli`, `config`, `answer_plan`, `export`: the packet,
  where it lives, how a run picks and updates it, the configuration, applying
  an agent's response plan, and the follow-up export.
- `diff`, `syntax`: the diff model and syntax highlighting (syntect with the
  embedded two-face sets behind small trusted wrappers).
- `tui/app`: the session state machine (cursor, drafts, threads, pickers,
  search, diff review); outside work is requested through `Pending` and its
  result handed back to a `*_loaded` method.
- `tui/keys`: which command each key means in each mode.
- `tui/render`, `tui/source_view`, `tui/diff_view`, `tui/screen`: the screen's
  lines as styled runs.
- `text`, `paths`, `stamp`, `util`, `theme`, `clipboard`: text helpers,
  paths, time and identifiers, slugs and titles, themes, and the terminal
  clipboard escape.

Public proof functions named `lemma_*` state the library's laws (for example
that answering a thread takes it out of the export, that typing and
backspacing undo each other, that merging files is idempotent).

`app/` is the program around the library: argument parsing, files on disk
(TOML packets, JSON plans), git, the clipboard, and the terminal loop.
`tests/` exercises the library from outside.
