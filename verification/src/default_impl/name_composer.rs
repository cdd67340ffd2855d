//! A name composer which composes no names.
use vstd::prelude::*;

verus! {

/// Composes no display names.
#[derive(Debug, Clone, Copy)]
pub struct NoNameComposer;

impl NoNameComposer {
    /// No name: always `None`.
    pub fn compose_name(&self, _email: &str) -> (r: Option<String>)
        ensures
            r is None,
    {
        None
    }
}

} // verus!
