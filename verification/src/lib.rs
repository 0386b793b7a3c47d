//! Verified core of a language server for the GN build configuration language:
//! a parser, a line index, and the static analysis that powers completion,
//! hover, definitions and diagnostics.

pub mod util;
pub mod line_index;
pub mod ast;
pub mod shape;
pub mod lexer;
pub mod walk;
pub mod grammar;
pub mod parser;
pub mod error;
pub mod storage;
pub mod workspace;
pub mod binary;
pub mod environment;
pub mod cache;
pub mod builtins;
pub mod dotgn;
pub mod toplevel;
pub mod items;
pub mod shallow;
pub mod analyzed;
pub mod scopes;
pub mod diagnostics;
pub mod links;
pub mod symbols;
pub mod file;
pub mod shallow_analyzer;
pub mod help;
pub mod files;
pub mod workspace_symbol;
pub mod references;
pub mod definition;
pub mod report;
