//! Packard Scripting Language (PSL): interactive fiction written in square
//! brackets. The lexer, the parser, the story runtime, the interactive
//! engine and saved games, each with a contract over a mathematical model
//! (`spec_tokenize`, `spec_parse`, `eval_expr`, `run_until_display`), and
//! the laws that hold across them (`laws`).

pub mod text;
pub mod error;
pub mod lexer;
pub mod number;
pub mod parser;
pub mod value;
pub mod semantics;
pub mod paths;
pub mod runtime;
pub mod game_engine;
pub mod save_state;
pub mod laws;
