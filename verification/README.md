# redo

High-level undo-redo functionality, verified with Verus.

Every modification of a target is made by a command that knows how to undo
the change it applies. The structures of this crate keep those commands and
apply, undo and redo them in order:

- `record`: a line of commands, with a limit, a saved position, queues that
  carry out actions later and checkpoints that cancel what was done through
  them;
- `history`: a tree of commands, in which applying a command where commands
  could still be redone keeps them as a branch that can be gone back to;
- `timeline` and `archive`: walks through a history that undo along the
  branches in which each step was taken;
- `stack` and `stack::stacks`: a plain stack of commands, and a collection of
  such stacks keyed by numbers;
- `group`: a collection of records, one of them active;
- `receiver`: a record that owns its receiver and reports whether it is clean;
- `format`: which lines a display of a record or a history shows.

Layout:

- `src/` is the library. Its contracts state what each operation does to a
  mathematical model of the structure (the commands as a sequence, the
  position, the saved position, the branches), and proof functions named
  `law_*` state what holds across operations.
- `tests/` runs the library on concrete commands.
- `app/` holds what cannot be verified: serializable copies of plain types,
  conversion from `chrono` times, the text of displays (which depends on the
  commands' own `Display`), and a history kept by the `undo` crate.
