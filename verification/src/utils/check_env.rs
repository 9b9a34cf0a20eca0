//! Whether the environment is fit to reach the language model.

use vstd::prelude::*;

verus! {

/// Whether the environment is fit: it is if it holds an API key.
pub fn check_environments(openai_api_key: Option<&str>) -> (fit: bool)
    ensures
        fit == openai_api_key is Some,
{
    openai_api_key.is_some()
}

} // verus!
