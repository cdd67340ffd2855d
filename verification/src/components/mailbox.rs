//! A mailbox: an email with an optional display name.
use vstd::prelude::*;

use crate::codec::encoder::{EncodeHeaderHandle, HeaderView, then_write};
use crate::components::email::{Email, spec_email_encode};
use crate::components::phrase::{Phrase, spec_encode_words};
use crate::error::{EncodingError, lemma_unit_ok};

verus! {

/// A mailbox: `display-name <local-part@domain>`, or `<local-part@domain>`.
#[derive(Debug, Hash, Eq, PartialEq, Clone)]
pub struct Mailbox {
    pub display_name: Option<Phrase>,
    pub email: Email,
}

/// Writing a mailbox: the display name followed by folding whitespace if
/// there is one, then `<`, the email and `>`; stopping at the first error.
pub open spec fn spec_mailbox_encode(v: HeaderView, m: Mailbox) -> (
    HeaderView,
    Result<(), EncodingError>,
) {
    let named = match m.display_name {
        None => (v, Ok(())),
        Some(p) => then_write(spec_encode_words(v, p.0@), |w: HeaderView| (w.fws(), Ok(()))),
    };
    then_write(
        named,
        |v1: HeaderView|
            then_write(
                v1.write_one('<'),
                |v2: HeaderView|
                    then_write(
                        spec_email_encode(v2, m.email.local_part.0@, m.email.domain.item()),
                        |v3: HeaderView| v3.write_one('>'),
                    ),
            ),
    )
}

impl Mailbox {
    /// A mailbox without display name.
    pub fn from_email(email: Email) -> (r: Mailbox)
        ensures
            r == (Mailbox { display_name: None, email }),
    {
        Mailbox { display_name: None, email }
    }

    /// Writes the mailbox (see `spec_mailbox_encode`).
    pub fn encode(&self, handle: &mut EncodeHeaderHandle) -> (r: Result<(), EncodingError>)
        requires
            old(handle).wf(),
        ensures
            final(handle).wf(),
            (final(handle)@, r) == spec_mailbox_encode(old(handle)@, *self),
    {
        if let Some(display_name) = &self.display_name {
            match display_name.encode(handle) {
                Ok(()) => {},
                Err(e) => return Err(e),
            }
            handle.write_fws();
        }
        match handle.write_char('<') {
            Ok(()) => {},
            Err(e) => return Err(e),
        }
        match self.email.encode(handle) {
            Ok(()) => {},
            Err(e) => return Err(e),
        }
        let r = handle.write_char('>');
        proof {
            lemma_unit_ok(r);
        }
        r
    }
}

} // verus!
