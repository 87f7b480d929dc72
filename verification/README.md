# flag_rs

A command-line framework in the style of Go's Cobra — command trees,
flag parsing with inherited flags, help text, dynamic shell completion
with hints, completion scripts for Bash, Zsh and Fish, argument
validators, a completion cache and "did you mean" suggestions — written
in Verus, with its behaviour stated as contracts and proved.

Layout:

- `src/` — the verified library. Each module states what its functions
  return as spec functions over sequences and maps (`decide` for where a
  command line leads, `completion_answer` for a completion request,
  `help_spec` for help text, `wrap_spec` for text wrapping, the shell
  formats in `completion_format`, and so on). Laws that relate several
  functions are public proof functions named `lemma_*`.
- `tests/` — tests of the library on concrete values.
- `app/` — what touches the process: environment variables, the terminal,
  printing, threads for completion time limits, the process-wide string
  pool, floating-point flag values, and a `completion!` macro. It hands
  every decision to the library.
