//! A token of a `Received` header: a word, an address or a domain.
use vstd::prelude::*;

use crate::codec::encoder::{EncodeHeaderHandle, HeaderView, then_write};
use crate::components::email::{Domain, Email, domain_text, spec_email_encode, write_between_fws};
use crate::components::word::{Word, do_encode_word, spec_encode_word};
use crate::error::{EncodingError, lemma_unit_ok};

verus! {

/// A token of a `Received` header.
#[derive(Debug, Clone, Hash, Eq, PartialEq)]
pub enum ReceivedToken {
    Word(Word),
    Address(Email),
    Domain(Domain),
}

/// Writing a received token: a word (never as encoded words), an address
/// in angle brackets, or a domain; stopping at the first error.
pub open spec fn spec_received_token_encode(v: HeaderView, t: ReceivedToken) -> (
    HeaderView,
    Result<(), EncodingError>,
) {
    match t {
        ReceivedToken::Word(w) => spec_encode_word(v, w, None),
        ReceivedToken::Address(e) => then_write(
            v.write_one('<'),
            |v1: HeaderView|
                then_write(
                    spec_email_encode(v1, e.local_part.0@, e.domain.item()),
                    |v2: HeaderView| v2.write_one('>'),
                ),
        ),
        ReceivedToken::Domain(d) => write_between_fws(v, domain_text(d.item(), v.mail_type)),
    }
}

impl ReceivedToken {
    /// Writes the token (see `spec_received_token_encode`).
    pub fn encode(&self, handle: &mut EncodeHeaderHandle) -> (r: Result<(), EncodingError>)
        requires
            old(handle).wf(),
        ensures
            final(handle).wf(),
            (final(handle)@, r) == spec_received_token_encode(old(handle)@, *self),
    {
        match self {
            ReceivedToken::Word(word) => do_encode_word(word, handle, None),
            ReceivedToken::Address(addr) => {
                match handle.write_char('<') {
                    Ok(()) => {},
                    Err(e) => return Err(e),
                }
                match addr.encode(handle) {
                    Ok(()) => {},
                    Err(e) => return Err(e),
                }
                let r = handle.write_char('>');
                proof {
                    lemma_unit_ok(r);
                }
                r
            },
            ReceivedToken::Domain(domain) => domain.encode(handle),
        }
    }
}

} // verus!
