# cosmic_edit

The decision-making core of a desktop text editor, written in Verus: every
function states its behaviour as a contract and Verus proves it.

- `src/` is the verified library: backup and session recovery (`backup`,
  `hotexit`, `orphans`, `autosave`), the project tree and file watching
  (`project`, `project_tree`, `watch`), search and replace (`tab`, `replace`, `config`,
  `search`), git status and diffs (`git`, and `diff_text` for the shape of
  diff text handed to the parser), closing tabs and quitting (`close_flow`),
  key bindings and text input (`key_bind`, `text_input`, `actions`), document statistics (`stats`),
  recent-file labels (`menu`), the line-number gutter and rectangle drawing
  (`line_number`, `render`), and the string, path and number helpers they
  share (`text`, `paths`, `hex`).
- `app/` is the command-line program around it: file and process I/O,
  locks, JSON storage, and the parallel project walk.
- `tests/` runs the library on concrete cases.

Calls into other crates (`regex`, `grep`, `patch`, `unicode-segmentation`,
`std::path`) go through small trusted wrappers whose contracts name what the
crate computes; everything built on them is proved.
