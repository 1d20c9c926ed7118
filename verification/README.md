# aibundle

Bundles files and folders into text for AI assistants, in XML, Markdown,
JSON or an LLM-oriented report with dependency analysis, from the command
line or from an interactive terminal interface.

The library under `src/` is written in Verus: every function carries a
contract that Verus proves.

- `text`, `paths`: characters, decimal numbers, and paths as `Path` sees
  them (components, file names, extensions, path order).
- `models`, `cli`: the records, the output formats, the command-line
  options and what a command-line run selects and writes.
- `pattern`: regular expressions (`regex`) and wildcards (`glob`).
- `gitignore`: which paths the `.gitignore` files ignore, with their rules
  read from the snapshot and matched by the `ignore` crate.
- `fs`: path normalization, binary detection, ignore rules, and the walks
  over the disk (listing, counting, collecting descendants and
  subdirectories).
- `output`: the four formats, the dependency analysis and the report.
- `tui`: the interface's state (the application state as a whole, path
  sets, the trie, search, selection), the list shown and its order, the
  keyboard's decisions, the dialogs, and the file operations (expanding,
  selecting, searching, loading, the settings toggles, saving).

The disk is never read by the library: the caller hands in a snapshot
(`output::snapshot::FsEntry`: for each path, whether it is a file or a
directory, the file's text, the directory's listing); the paths the
`.gitignore` files ignore are computed from it by `gitignore::gitignored_paths`.

`app/` is the program around it: argument parsing (clap), reading the disk,
the configuration file (serde, toml), the clipboard, and the terminal
(ratatui).

Laws of the library are public proof functions whose names start with
`lemma_`, next to the functions they speak of.
