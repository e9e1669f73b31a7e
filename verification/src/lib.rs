//! Schema lowering and template expression type checking for the BAML language.
//!
//! The crate turns a parsed schema into a canonical intermediate representation
//! and statically infers the types of template expressions against a registry of
//! known variables, classes and functions.
pub mod ast;
pub mod collections;
pub mod cycles;
pub mod entities;
pub mod evaluate_type;
pub mod expression;
pub mod functions;
pub mod graph;
pub mod ir;
pub mod lowering;
pub mod metadata;
pub mod node;
pub mod prompts;
pub mod repr;
pub mod seqs;
pub mod sorting;
pub mod text;
pub mod types;
pub mod validation;
