# starc — the C* toolchain, verified

A library for the C* language and its tools, written in Verus: every
function in `src/` carries a contract that Verus proves, except a few
marked `external_body` that call std (character classes, `Debug` of a
string, case conversion, `String::push`), whose contracts are trusted.

- `text` — character-level utilities (`lines`, `trim`, decimal rendering,
  searching) with exact specifications.
- `diagnostics` — structured diagnostics and their human-readable report.
- `ast` — the syntax tree and its mathematical views.
- `lexer` — tokens, with a functional specification of every step and the
  automatic statement terminators.
- `parser` — the recursive-descent parser with error recovery.
- `typeck` — the type checker: scopes, moves, borrows, `raw` blocks and the
  specialisation of generic functions.
- `fmt` — the canonical formatter.
- `repl`, `lsp`, `orbit`, `cli` — the decisions of the interactive session,
  the language server, the package manager and the compiler's command line.

`tests/` runs the library on concrete inputs.  `app/` holds the programs
around it: file and process I/O, JSON, the LSP transport, and LLVM code
generation through inkwell.
