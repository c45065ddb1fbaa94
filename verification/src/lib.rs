//! Leuchtkraft: a small forward-chaining logic language.
//!
//! Users assert Horn-like implication chains over predicates and boolean
//! literals, optionally generalized with clause-scoped free variables, and
//! pose queries containing unknowns whose truth value the engine determines
//! from the asserted knowledge base.

pub mod atom;
pub mod cli;
pub mod context;
pub mod diagnostic;
pub mod error;
pub mod clause;
pub mod graph;
pub mod interpreter;
pub mod laws;
pub mod logic_engine;
pub mod parse_error;
pub mod parser;
pub mod position;
pub mod render;
pub mod repl;
pub mod span;
pub mod symbol;
pub mod token;
pub mod tokenizer;
pub mod util;
pub mod warning;
