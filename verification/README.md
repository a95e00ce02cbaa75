# Coda, verified

The core of the Coda language — parser, Hindley–Milner type checker with
row-polymorphic records and unions and shape-checked arrays, and the LLVM IR
code generator — written in Verus, with each public function's result stated
in its contract and proved.

## Layout

- `src/` — the verified library
  - `ast.rs` — the syntax tree
  - `lex.rs`, `grammar.rs`, `expr_grammar.rs` — the grammar as functions on
    character sequences; `parser.rs` — the parser, proved to follow it
  - `types/` — types and their models, substitutions, unification, inference
    (`infer_model.rs` states it, `infer.rs` implements it), annotations,
    normal forms, the standard environment, type display, and how a line of an
    interactive session types (`repl.rs`)
  - `codegen_model.rs`, `emit_model.rs` — what compilation reports and writes;
    `codegen.rs` — the code generator, proved to write exactly that; a
    program is compiled together with the modules it imports, each once
  - `imports.rs` — the modules a program imports, which one to read next, and
    the order in which they are compiled (with import cycles found)
  - `eval.rs` — evaluation errors and array broadcasting; `arrays.rs` — rows,
    slices and gathers of flat row-major arrays and the list builtins on them
- `app/` — the command-line interpreter and REPL, the tree-walking evaluator
  (floats and host closures), module loading and error rendering
- `tests/` — tests of the library

`app/` reads files and the terminal and hands the library plain values.
