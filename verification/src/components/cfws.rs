//! Comments and folding whitespace (only folding whitespace is supported).
use vstd::prelude::*;

use crate::codec::encoder::{EncodeHeaderHandle, TokenView};

verus! {

/// Folding whitespace.
#[derive(Debug, Hash, Clone, Eq, PartialEq)]
pub struct FWS;

/// Comments and folding whitespace.
#[derive(Debug, Clone, Hash, Eq, PartialEq)]
pub enum CFWS {
    SingleFws(FWS),
}

impl CFWS {
    /// Writes folding whitespace.
    pub fn encode(&self, handle: &mut EncodeHeaderHandle)
        requires
            old(handle).wf(),
        ensures
            final(handle).wf(),
            final(handle)@ == match old(handle)@.mark_fws().with_token(TokenView::NowChar).write_char(
                ' ',
            ) {
                Ok(v) => v,
                Err(_) => old(handle)@.mark_fws().with_token(TokenView::NowChar),
            },
    {
        match self {
            CFWS::SingleFws(_) => handle.write_fws(),
        }
    }
}

} // verus!
