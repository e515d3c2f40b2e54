//! A tree-walking interpreter for a small expression language: a lexer, a
//! Pratt parser and an evaluator with first-class functions and closures.
//!
//! Source text is turned into tokens (`lexer`), tokens into a program
//! (`parser`, `ast`), and a program into a value (`evaluation`, `object`)
//! against scopes that closures share (`environment`). `repl` holds the
//! decisions of an interactive shell. `reparse` and `relex` show that what
//! the printer writes is read back as the same program.

pub mod ast;
pub mod environment;
pub mod evaluation;
pub mod lexer;
pub mod object;
pub mod parser;
pub mod relex;
pub mod reparse;
pub mod repl;
pub mod text;
pub mod token;
