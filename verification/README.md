# rura

The core of an interactive shell pipeline editor, verified with Verus.

- `src/` is the library. `rura` models a pipeline as a list of steps;
  `shell/` holds the runners that execute a pipeline step by step (with a
  cache of step outputs that is reused while the leading steps stay the
  same), one command at a time, or as one command; `history` is the command
  history browsed with previous/next; `stdin` decides when piped input is
  handed to the pipeline; the `*_widget` modules and `completable_input` hold
  the computations behind the screen: wrapping and cursor placement of the
  command, shell completion, the run details table, the key help text and
  its scrolling, the search bar and the save-to-file dialog.
- `tests/` runs the library on concrete values, with a scripted executor in
  place of the shell.
- `app/` is the command-line program around it: argument parsing, the
  system shell, the reader thread for piped input, and the files kept in
  the cache directory.

The public functions of the library state their results in their
`ensures`. The traits that stand for the outside world (`Exec`,
`Completer`, `FileSaver`, `FileWriter`) carry no contract, and neither does
the file saver's `save`, whose result is the file system's: what such calls
return is taken by verified functions that state what happens for each
outcome. The runners, the inputs that complete and the save dialog keep,
as ghost state, every request they made to the executor, the completer or
the saver, so that their contracts can say what was asked and what came
back. Line editing by keys is `tui_input`'s: each input holds a
`tui_input::Input`, which keeps what cutting keys cut for the yank key, and
edits go through one trusted function. The properties that
relate several calls are public proof functions named `law_*`.
