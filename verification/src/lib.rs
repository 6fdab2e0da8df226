//! A small dialogue-script interpreter.
//!
//! A script of `Name: Message` lines is parsed into a recursive
//! [`ASTNode`] tree, which a single-step evaluator then plays back one
//! utterance at a time, threading the remaining program forward as a new
//! tree value.

pub mod ast;
pub mod eval;
pub mod laws;
pub mod parser;

pub use ast::ASTNode;
pub use ast::Action;
pub use eval::advance;
pub use eval::advance_dialogue;
pub use eval::advance_line;
pub use eval::play;
pub use eval::try_advance;
pub use parser::convert;
