//! The Huzi language compiler's front end and the decisions of its code
//! generator: tokens, lexer, syntax tree and parser; the checks on type
//! definitions; how operators, conversions, conditions and built-in functions
//! treat values of each type; and the command-line settings.
pub mod text;
pub mod error;
pub mod suggest;
pub mod token;
pub mod cli;
pub mod lexer;
pub mod comments;
pub mod ast;
pub mod grammar;
pub mod parser;
pub mod decls;
pub mod program;
pub mod ops;
pub mod builtins;
pub mod scopes;
pub mod modules;
