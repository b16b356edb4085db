# panda_note

The core of the Panda Note desktop client, written in Verus: every function
in `src/` carries a contract that Verus proves, except a few small wrappers
around outside crates (jieba, unicode-script, uuid, chrono) and std, whose
contracts are trusted and say in their doc comments what they claim.

## Layout

- `src/` — the verified library
  - `model`, `api`, `session`, `url`: the domain types, request paths and
    error mapping, the saved instances, API base URL normalisation
  - `text`, `lines`, `number`, `order`: text, line, number and ordering
    helpers that the rest is stated over
  - `markdown`, `editor`, `excerpt`: the formatting actions of the editor and
    the list excerpt of a memo
  - `workspace`, `memos`, `notebooks`, `tree`, `todos`, `view`, `highlight`:
    the decisions of the three panes (saving, conflicts, renames, search,
    the notebook tree, todo lists, palette and highlighting)
  - `sync`: replaying queued todo operations and pulling journal pages
  - `cjk`, `script`, `clock`: jieba word motions, Unicode scripts and the
    clock, through small trusted wrappers
- `tests/` — tests of the library on concrete values
- `app/` — a headless runner around the library: HTTP client, SQLite store,
  session file and the sync loop

Each `lemma_*` proof function in `src/` states a law of the library, such as
that a formatting toggle applied twice gives the lines back or that a save
acknowledgement never lowers a memo's revision.
