//! Monad composition patterns for agent pipelines, with the monad laws and the
//! behaviour of every pipeline runner stated as contracts and proved.

pub mod composition;
pub mod identity;
pub mod maybe;
pub mod reader;
pub mod state;
pub mod string_map;
pub mod text;
pub mod writer;

use vstd::prelude::*;

verus! {

/// Agent result type for error handling throughout the crate.
pub type AgentResult<T> = Result<T, String>;

} // verus!
