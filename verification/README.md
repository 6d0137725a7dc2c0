# zero_shell

A small Unix shell with job control, written as a Verus-verified library
(`src/`) and a thin program around it (`app/`).

- `src/` holds the shell's logic with contracts: splitting command lines,
  completion, the line editor, dispatch of commands, the job table (`jobs`,
  `bg`, `fg`, `kill` and child events), `echo`, the listing logic of `ls`
  (options, sorting, grids, long listings, recursive walks), the argument
  checks and messages of the other commands, and `src/laws.rs`, which states
  properties that span several functions.
- `app/` does the I/O: the terminal in raw mode, signals, `fork`/`exec` and
  `waitpid`, and the file system. It hands the library plain values and
  prints what the library returns. For `bg`, the library names the process
  groups to continue (`bg_plan`); `app/` signals them and hands the outcomes
  back to `bg`.
- `tests/` runs the library on concrete inputs.
