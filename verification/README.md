# gitmedit

A terminal editor for git's commit, merge, squash and tag messages and for interactive rebase
todos. The message is edited on the left; git's status (or, for a rebase, the details of the
selected commit) is shown on the right; the comment block git owns is written back untouched.

## Layout

- `src/` is the verified library: Verus verifies every function in it against its contract.
  - `text`: char sequences and the string operations the rest is built from.
  - `message`: splitting a message file into the editable message and git's trailer, and
    writing it back.
  - `status`: reading the trailer as git's status report, and its rows for the status pane.
  - `rebase`: the todo file, its instructions, moving them, and the summary.
  - `rewords`, `reword`: pending rewords and the messages stored for git's reword stops.
  - `details`: `git show` output and the cache of commit details.
  - `context`: which git file is open, its git directory and comment char.
  - `session`: the editor state and what each action does to it; work on the text editors
    and in the background is handed back as commands.
  - `keys`: which action a key or mouse event asks for.
  - `layout`, `wrap`, `view`, `rebase_view`: where panes go, soft wrapping, and what each pane
    shows.
  - `document`: the line classification and round trip of the document model.
- `app/` is the program: command line, terminal, drawing with ratatui, the text editors,
  clipboard, git commands and files. It calls the library for every decision.
- `tests/` runs the library on concrete inputs.
