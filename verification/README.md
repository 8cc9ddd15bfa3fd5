# over

A git-based file overlay manager: overlays are directories of a git repository
whose files are linked into place, together with git repositories, managed blocks
in other files, and packages to install.

## Layout

- `src/` is the library: every decision the tool takes, as functions on plain
  values, with contracts that Verus proves.
  - `text`, `path`, `table`: texts, paths and tables as sequences.
  - `glob`, `blocks`, `template`, `sidecar`, `overlays`, `exec`, `uses`: what an
    overlay is, what it declares and what it uses.
  - `actions`: links, managed blocks, git repositories and packages.
  - `desired`: the entries that an overlay and everything it uses ask for.
  - `commit`: changes that go back to the source of an overlay.
  - `cli`: the commands.
- `app/` is the program: arguments, files, git, processes and questions to the
  user. It asks the library what to do and does it.
- `tests/` runs the library on concrete values.
