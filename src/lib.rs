//! A small interactive shell whose command language nests parenthesized
//! subcommands: `echo (pwd)` runs `pwd` first and hands its output to `echo`
//! as one argument.
//!
//! The library holds the language itself, verified: the tokenizer, the
//! recursive-descent parser, the evaluation plan with the state machine that
//! drives it, the builtins' argument rules, the history and the line editor.
pub mod text;
pub mod tokenizer;
pub mod parser;
pub mod render;
pub mod builtins;
pub mod evaluator;
pub mod interpret;
pub mod history;
pub mod line;
