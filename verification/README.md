# swiftgit

A keyboard-driven terminal Git client with GitHub integration: a collapsible
file tree with stage/unstage of files, folders and single diff hunks, an
inline editor, push and pull over SSH or a personal access token, an SSH key
setup wizard, and a picker that downloads parts of a GitHub repository.

## Layout

- `src/` — the library, verified with Verus. It holds the state of the
  interface (`model`), what each screen does with a key (`context`), the
  parsing of `git` output and the commands each operation runs (`git`), the
  SSH and token logic (`auth`, `github`), the settings (`config`), the file
  trees (`tree`), the folder suggestions (`suggest`), syntax colouring
  (`syntax`) and the pieces of the screens that are computed rather than
  drawn (`ui`, `views`). A screen never performs outside work itself: it
  returns an `Effect`, and the caller hands the result back to the screen's
  `finish_*` function.
- `app/` — the program around it: the terminal loop, drawing with ratatui,
  running `git`, `ssh` and `ssh-keygen`, the GitHub API, and the settings
  file.
- `tests/` — tests of the library.
