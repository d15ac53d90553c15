# pistonite_cu

Common utilities for command-line programs — printing with levels and
colors, progress bars, prompts, running child processes, following cargo
builds, parsing values, glob patterns and path handling — written in Verus
with their behaviour stated as contracts and proved.

- `src/` is the verified library. Each module states what its functions
  compute over mathematical models (`Seq`, `Set`, spec functions) and proves
  it; the laws that relate several functions are public proof functions
  named `law_*`.
- `tests/` runs the library on concrete values.
- `app/` is the unverified plumbing around it: the terminal, threads,
  tokio processes, serde formats, `log` and clap integration, and
  floating-point time estimates. It performs IO and hands the library plain
  values.

Calls into other crates (glob, regex, pathdiff, dunce, shell-words,
unicode-width, terminal_size, smallvec) are made through small trusted
wrappers whose contracts are documented next to them.
