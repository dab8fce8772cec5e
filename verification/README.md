# mylang

A small scripting language with a lexer, a recursive-descent parser, a
bytecode compiler and a bytecode machine, plus a typed front end (scanner,
abstract syntax tree and semantic analyzer).

## Layout

- `src/` — the library, verified with Verus:
  - `lexer/`, `parser/`: source text to tokens to located statements;
  - `compliler/`: opcodes, constants, scopes, chunks and the compiler;
    `compile_source` in `lib.rs` runs the three stages;
  - `scanner.rs`, `ast.rs`, `semantic.rs`: the typed front end;
  - `error.rs`, `error/`, `location.rs`, `utils.rs`, `text.rs`: errors,
    source positions and text helpers.
  Each stage's contract states its result through a specification of the
  stage (for example `tokenize_spec`, `located_program_from`,
  `compile_program`, `analyze_stmts`).
- `app/` — the command-line program: file and console I/O, the bytecode
  machine and the tree-walk interpreter (they compute with `f64`).
- `tests/` — tests of the library.

Number literals are kept as the text they were written with; the machine and
the interpreter turn that text into a number.
