# lumen_diff

The logic behind a terminal diff viewer, verified with Verus. It decides what is compared and
which files are shown, groups changes for navigation, names and resolves pull requests, plans
their downloads and puts the results together.

- `src/` is the library. It runs no command, reads no file and draws nothing; the program around
  it does, and hands in what came back.
  - `change_nav`: groups of changed rows, and the arrows that lead from one to the next.
  - `git`, `vcs`: references, changed files and contents of a version control system.
  - `pr_info`, `pr_files`, `pr_load`, `fetch`, `viewed`: pull requests on GitHub.
  - `ui`: what happens when the viewer starts.
  - `content`, `json`, `literal`, `command`, `text`, `types`: what the others are built on.
- `tests/` runs the library, with the outside crates linked.
- `app/` runs the commands, reads files, downloads in parallel and shows progress.

Proof functions whose names begin with `law_` state what holds of the library as a whole.
