# c2rust_translate

An assistant that translates the C code of a project to Rust one item file at a
time (`var_*.rs` / `fun_*.rs` under `.c2rust/<feature>/rust/src`), checks and
repairs each translation, runs the hybrid C/Rust build and tests, and commits
the result; a `merge` command gathers the translated files into one.

## Layout

- `src/` — the library, verified with Verus: file selection, the
  configuration file format, statistics and their normalisation, progress,
  the per-file attempt state machine and acceptance decisions, the
  fix-loop decisions, error-output extraction, local code repairs, the
  merge of translated files, the side-by-side display layout, and the
  arguments and outcomes of the outside commands.
- `tests/` — tests of the library on concrete values.
- `app/` — the command-line program around the library: argument parsing,
  prompts, file and process I/O, JSON persistence of the statistics, and the
  syntax-tree rewrite of exported functions. Run as `c2rust-config` it is the
  configuration tool.
