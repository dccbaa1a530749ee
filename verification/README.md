# zenlang

The front end and tooling of a small scripting language, written in Verus:
every function of the library states what it does in `requires`/`ensures`
contracts over mathematical models, and is proved to meet them.

## Layout

- `src/` — the verified library.
  - `lexer.rs`, `lexer_spec.rs`: source text to tokens, against a functional
    specification of the token stream.
  - `parser.rs`, `ast.rs`: tokens to the syntax tree (a Pratt parser).
  - `resolver.rs`, `symbol.rs`, `mod_resolver.rs`: scopes, name resolution and
    module loading decisions.
  - `typeck.rs`: the type checker.
  - `compiler.rs`, `ir.rs`: bytecode generation, its encoding and disassembly.
  - `formatter.rs`, `formatter_spec.rs`: the source formatter.
  - `document.rs`, `lsp.rs`, `outline.rs`, `definition.rs`: editor support
    (diagnostics, positions, symbols, go-to-definition).
  - `dap.rs`, `hotreload.rs`, `repl.rs`: the decisions of the debugger
    adapter, the hot reloader and the REPL, as functions from state and
    event to next state.
  - `slab.rs`, `value.rs`: the generation-checked slab and foreign values.
  - `stdlib/`: signatures and the pure parts of the native library.
- `tests/` — tests run against the compiled library.
- `app/` — the command-line program and the language server around the
  library: file and network I/O, JSON, and floating-point natives.
