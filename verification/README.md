# rcomp

A small compiler for a C-like language, verified with Verus.

The library (`src/`) holds the compiler's logic with its contracts:

- `ast`, `input`: the syntax tree, kept in arenas, and the decoding of
  string and character literals.
- `resolve`: the items that a source file defines or imports.
- `tp`, `typing`: types, unification (on the `ena` crate) and type
  inference; `typing` states the typing rules as functions on the state of
  inference.
- `driver`: checking and compiling whole functions and programs, and
  deciding beforehand whether a program can be checked (`checkable`) and
  lowered (`lowers_all`).
- `bytecode`, `lowerer`: the stack bytecode, memory layouts, and lowering
  typed syntax to bytecode.
- `vm`: a bytecode interpreter, run step by step; reading and printing are
  events that the caller serves.
- `codegen`: the machine instructions that stand for each bytecode
  function, on numbered SSA values.
- `listing`, `diagnostic`: printing bytecode and error reports.

`app/` is the command line driver: it reads files, turns parse errors of
`lalrpop-util` into the library's `ParseFailure`, prints reports with
`ariadne`, serves the interpreter's input and output, and hands the
machine instructions to Cranelift. The grammar of the language is not part
of this crate, so the driver refuses every source file at its first token.
