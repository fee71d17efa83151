use vstd::prelude::*;

pub mod json;
pub mod llm_service;
pub mod models;
pub mod prompts;
pub mod smart_search;
pub mod text;
pub mod urlencoding;

verus! {

/// The library's result cap: the orchestrator stops issuing further queries
/// once this many records have been gathered.
pub const RESULT_CAP: usize = 20;

pub fn result_cap() -> (r: usize)
    ensures
        r == RESULT_CAP,
{
    RESULT_CAP
}

} // verus!
