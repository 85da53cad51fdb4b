# krun

`krun` keeps per-directory "workspaces": a shell, a default profile and a set
of named scripts (profiles), stored in a SQLite database and edited as text in
the user's editor. `krun init|edit|remove|run` manages them; `kr [profile]`
runs one.

## Layout

- `src/` — the verified library (Verus):
  - `text.rs`: characters, trimming, `str::lines`, joining, with their specs;
  - `models.rs`: `Workspace`, `Profile`, the text format (`to_text`,
    `from_text`) and `get_profile`;
  - `round_trip.rs`: the proof that reading a workspace's text gives the
    workspace back;
  - `store.rs`: the rows a save writes and how rows are read back, with the
    laws of saving and deleting over a model of the two tables;
  - `identity.rs`: the identity of a directory (first commit, or SHA-256 of
    its path);
  - `cli.rs`, `session.rs`, `editor.rs`: the arguments and the decisions of
    the tools.
- `app/` — the program: argument parsing, the database, git, the editor and
  running scripts.
- `tests/` — tests of the library.
