# klc

A verified library for the KLC language toolchain. Each function states its behaviour
in a `requires`/`ensures` contract that Verus proves.

- `src/` — the library: lexer and tokens, syntax tree and its mathematical view,
  source formatter, bytecode generation, the bytecode optimizer, the native back end's
  syntax-tree optimizations and its lowering of expressions, `let` and assignments to
  x86-64, x86-64 encoding, register allocation, PE and import-table layout, DWARF line
  tables, JIT safety analysis and hot-spot detection, module export tables, reading
  line and column numbers out of compiler messages, and editor helpers (code folding,
  text filtering, the key handling: bracket pairing, pair deletion, auto-indent, Tab,
  comment toggle).
- `tests/` — tests of the library on concrete inputs.
- `app/` — the command-line driver, writing executables, executable memory for the
  JIT, and the floating-point arithmetic the bytecode optimizer asks for.
