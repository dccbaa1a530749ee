//! Zen: the front end and runtime support of a small scripting language.
pub mod span;
pub mod token;
pub mod text;
pub mod error;
pub mod lexer_spec;
pub mod lexer;
pub mod formatter_spec;
pub mod formatter;
pub mod slab;
pub mod ir;
pub mod ast;
pub mod compiler;
pub mod lsp;
pub mod symbol;
pub mod stdlib;
pub mod value;
pub mod hotreload;
pub mod repl;
pub mod parser;
pub mod dap;
pub mod outline;
pub mod resolver;
pub mod typeck;
pub mod document;
pub mod definition;
pub mod mod_resolver;
