# scratchbox

A terminal scratchpad over a folder of plain notes: an ordered note list beside an editor
pane with autosave on idle and live reflection of outside changes, and a command-line
capture that appends stdin to the note at the top of the list.

## Layout

- `src/` is the verified library. Every decision the program makes is a function here with a
  contract, proved by Verus: note names and their validation, naming and slugging, the
  display order reconciled from the manifest and the disk, the manifest's text, the
  configuration's resolution, the watcher's event classification, the registry that keeps
  the app's own writes from echoing back, the keymap and its help panel, the key routing
  between modals, the screen geometry and status text, the steps of a save and of a purge
  in their order, and the editor session's state machine (selection, conflicts, autosave
  and health timers, quitting).
- `app/` is the program around it: the terminal, the filesystem, the watcher backend,
  configuration parsing and logging. It calls the library for every decision and carries
  out, step by step, the I/O the library lists. Run under the name `scratchbox-tui` it opens the editor;
  under any other name it is the command-line capture.
- `tests/` exercises the library on concrete values.

Laws the library proves are public proof functions named `lemma_*`, beside the functions they
speak of.
