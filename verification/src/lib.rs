//! KLC compiler library: the lexer and syntax tree, the source formatter, bytecode
//! generation and the optimizations before it, syntax-tree optimizations for the native
//! back end (constant folding and propagation, shared subexpressions, tail calls), the
//! native back end's lowering of expressions, `let` and assignments, x86-64 instruction
//! encoding, register allocation, PE image and import-table layout,
//! DWARF debug information, JIT analysis and hot-spot detection, reading positions out
//! of compiler messages, and editor helpers (folding, text filtering, key handling).
pub mod bytes;
pub mod numtext;
pub mod text;
pub mod lines;
pub mod x64;
pub mod regalloc;
pub mod pe;
pub mod imports;
pub mod extern_calls;
pub mod dwarf;
pub mod token;
pub mod lexer;
pub mod ast;
pub mod ast_view;
pub mod bytecode;
pub mod codegen;
pub mod optimize;
pub mod const_fold;
pub mod bytecode_optimize;
pub mod jit;
pub mod module;
pub mod formatter;
pub mod code_folding;
pub mod gui;
pub mod messages;
pub mod native_codegen;
pub mod editor_keys;
