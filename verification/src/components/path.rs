//! A path: an email in angle brackets, or the empty path `<>`.
use vstd::prelude::*;

use crate::codec::encoder::{EncodeHeaderHandle, HeaderView};
use crate::components::email::{Email, spec_email_encode};
use crate::error::EncodingError;

verus! {

/// A path (RFC 5321): an email, or none.
#[derive(Debug, Clone, Hash, Eq, PartialEq)]
pub struct Path(pub Option<Email>);

/// Writing a path: a place for folding whitespace, `<`, the email if there
/// is one, `>` and another place for folding whitespace. Errors of writing
/// the brackets are ignored; an error of writing the email stops it.
pub open spec fn spec_path_encode(v: HeaderView, p: Option<Email>) -> (
    HeaderView,
    Result<(), EncodingError>,
) {
    let v1 = v.mark_fws().write_one('<').0;
    let (v2, r) = match p {
        None => (v1, Ok(())),
        Some(e) => spec_email_encode(v1, e.local_part.0@, e.domain.item()),
    };
    if r is Err {
        (v2, r)
    } else {
        (v2.write_one('>').0.mark_fws(), Ok(()))
    }
}

impl Path {
    /// A path holding `email`.
    pub fn from_email(email: Email) -> (r: Path)
        ensures
            r == Path(Some(email)),
    {
        Path(Some(email))
    }

    /// Writes the path (see `spec_path_encode`).
    pub fn encode(&self, handle: &mut EncodeHeaderHandle) -> (r: Result<(), EncodingError>)
        requires
            old(handle).wf(),
        ensures
            final(handle).wf(),
            (final(handle)@, r) == spec_path_encode(old(handle)@, self.0),
    {
        handle.mark_fws_pos();
        let _ = handle.write_char('<');
        if let Some(mail) = &self.0 {
            match mail.encode(handle) {
                Ok(()) => {},
                Err(e) => return Err(e),
            }
        }
        let _ = handle.write_char('>');
        handle.mark_fws_pos();
        Ok(())
    }
}

} // verus!
