# inscribe

The verified core of the Inscribe compiler toolchain for the Mentalogue language, written
in Verus.

- `src/lexer`, `src/ast`, `src/hir`, `src/types`: tokens, syntax trees, the typed
  high-level IR and its printing.
- `src/mir`: the mid-level IR, its lowering from HIR, constant folding, the optimizer,
  and the borrow and determinism checks.
- `src/codegen`: native x86-64 code generation: frame and struct layouts, lowering of MIR
  to instructions, runtime routines, the instruction encoder and the ELF and PE images.
- `src/abi`, `src/ffi`, `src/debug`, `src/incremental`, `src/cli`: the binary interface and
  library files, foreign-function maps, debug records, the query cache, and the command
  line's decisions.
- `app/`: the `inscribe` command: argument handling, file I/O, and the front end through
  the resolver and type checker crates.
- `tests/`: tests of the library on concrete programs.
