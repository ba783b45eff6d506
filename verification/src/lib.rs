//! A small line-oriented scripting language: an indentation-sensitive lexer,
//! a recursive-descent parser, a tree-walking interpreter with a loosely
//! typed variable environment, and a rule-based macro synthesizer that turns
//! a classified natural-language instruction into source text of the same
//! language and runs it.
//!
//! The classifier that answers `predict` calls is an external collaborator:
//! the library reaches it only through the [`interpreter::Classifier`] trait,
//! and every decision taken on its answers is verified for every possible
//! answer.

pub mod text;
pub mod lexer;
pub mod parser;
pub mod numeric;
pub mod env;
pub mod synth;
pub mod interpreter;
pub mod engine;
pub mod laws;
