# Rusplorer

A file explorer with tabs, a folder tree, background copying and its own
updates. Its rules are a verified library; the window and the work on the file
system are an ordinary program around it.

- `src/` is the library, written in Verus. It holds no I/O: paths, listings,
  replies and answers come in as plain values, and decisions go out. Every
  function states what it returns for every input, and the public proof
  functions state what holds of several of them together.
- `tests/` runs the library on concrete values.
- `app/` is the program: the window (egui), the file system, the clipboard and
  drag and drop of Windows, and the requests to the release server.

## The library

| Subject | Modules |
| --- | --- |
| Text, numbers, UTF-16 | `text`, `numerals`, `wide`, `names` |
| Paths and their spelling | `paths`, `spelling`, `path_keys`, `typed` |
| What a folder shows | `listing`, `sorting`, `list_view`, `file_utils`, `pictures`, `tree`, `types` |
| Moving about | `navigation`, `session`, `favorites`, `drives` |
| Selecting and acting | `selection`, `keys`, `clipboard`, `menus`, `rename`, `shortcuts`, `file_drag`, `dnd` |
| Work on files | `copy_job`, `copy_queue`, `transfer`, `scan`, `fs_ops`, `recycle`, `undo`, `job_count`, `job_panel` |
| Updates | `github`, `versions`, `updater` |

Work that alternates between decisions and the outside world is a state
machine: `copy_job::CopyRun`, `scan::ScanRun`, `recycle::RestoreRun`, `fs_ops::UnlockStage`,
`dnd::DropTarget` and `updater::Updater`. The program does what the phase asks
for and hands back what came of it.

What is believed without proof stands in `text`, `wide`, `github`, `pictures`
and `updater`, each item under a comment that says what it claims of the
function that it calls.
