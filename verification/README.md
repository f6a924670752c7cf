# cargo_stub

A compiler driver that finds the functions of a crate and compiles the crate
again with chosen functions turned into stubs: the first line of each body
starts with `panic!("Function NAME is stubbed!")/*` and the line before the
closing brace ends with `*/`.

- `src/` is the verified library: the per-file record of functions
  (`fn_info`, `fn_map`), the rewriting of a source file (`stub`, on top of the
  line splitting, joining and trimming of `text`), the command-line decisions
  (`args`, which reads options through `getopts`), the step-by-step decisions
  of a compiler run (`driver`), and the sample crate the stubbing is shown on
  (`sample`).
- `app/` drives rustc through its private crates (`rustc_driver`, `syntax`,
  ...), which only the compiler's own toolchain provides, and hands the
  library plain values.
- `tests/` runs the library on concrete inputs.
