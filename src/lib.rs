//! A small command shell engine: a lexer and parser for pipeline lines, a
//! structured value model, built-in commands over it, and a pipeline runner
//! that asks its host for the outside work it cannot do itself.

pub mod error;
pub mod lex;
pub mod numtext;
pub mod parser;
pub mod value;
pub mod format;
pub mod order;
pub mod sort;
pub mod commands;
pub mod paths;
pub mod context;
pub mod runner;
pub mod shell;
pub mod views;
pub mod utils;
pub mod environment;
pub mod laws;
