//! Static inference of the types of template expressions.
use vstd::prelude::*;

pub mod errors;
pub mod expr;
pub mod laws;
pub mod numbers;
pub mod order;
pub mod registry;
pub mod suggest;
pub mod types;

verus! {

/// Where a template expression stands.
#[derive(Clone, Copy, Debug, PartialEq, Eq, Structural)]
pub enum JinjaContext {
    /// In the prompt of a function.
    Prompt,
    /// In an expression that is evaluated while an answer is parsed.
    Parsing,
}

} // verus!
