//! The C* toolchain library: text utilities, diagnostics, lexer, parser,
//! type checker, formatter and the decision logic of the command-line tools.

pub mod text;
pub mod diagnostics;
pub mod ast;
pub mod lexer;
pub mod parser;
pub mod typeck;
pub mod fmt;
pub mod repl;
pub mod lsp;
pub mod orbit;
pub mod cli;
