//! A header name as a component which owns its text.
use vstd::prelude::*;

use crate::codec::test_utils::TestMailEncoder;
use crate::error::EncodingError;
use crate::grammar::spec_is_ascii;
use crate::headers::is_alnum;
use crate::utils::str_chars;

verus! {

/// The chars a header name component may hold: letters, digits and `-`.
pub open spec fn spec_is_name_char(c: char) -> bool {
    is_alnum(c) || c == '-'
}

/// The name of a header, made of ascii letters, digits and `-`.
#[derive(Debug, PartialEq, Eq, Hash)]
pub struct HeaderName(String);

impl View for HeaderName {
    type V = Seq<char>;

    closed spec fn view(&self) -> Seq<char> {
        self.0@
    }
}

impl HeaderName {
    #[verifier::type_invariant]
    spec fn inv(self) -> bool {
        forall|i: int| 0 <= i < self.0@.len() ==> #[trigger] spec_is_name_char(self.0@[i])
    }

    /// A header name holding `name`; fails with `InvalidHeaderName` if
    /// `name` holds a char which is not an ascii letter, digit or `-`.
    pub fn new(name: String) -> (r: Result<HeaderName, EncodingError>)
        ensures
            (forall|i: int| 0 <= i < name@.len() ==> #[trigger] spec_is_name_char(name@[i])) ==> (
            r matches Ok(h) && h@ == name@),
            !(forall|i: int| 0 <= i < name@.len() ==> #[trigger] spec_is_name_char(name@[i]))
                ==> r == Err::<HeaderName, EncodingError>(EncodingError::InvalidHeaderName),
    {
        let chars = str_chars(name.as_str());
        let mut ok = true;
        let mut i: usize = 0;
        while ok && i < chars.len()
            invariant
                chars@ == name@,
                i <= chars.len(),
                forall|j: int| 0 <= j < i ==> #[trigger] spec_is_name_char(chars@[j]),
                !ok ==> i < chars.len() && !spec_is_name_char(chars@[i as int]),
            decreases chars.len() - i + (if ok { 1int } else { 0int }),
        {
            let c = chars[i];
            if ('a' <= c && c <= 'z') || ('A' <= c && c <= 'Z') || ('0' <= c && c <= '9') || c
                == '-' {
                i = i + 1;
            } else {
                ok = false;
            }
        }
        if ok {
            proof {
                assert(i == chars.len());
            }
            Ok(HeaderName(name))
        } else {
            Err(EncodingError::InvalidHeaderName)
        }
    }

    /// The name as a `&str`.
    pub fn as_str(&self) -> (r: &str)
        ensures
            r@ == self@,
    {
        self.0.as_str()
    }

    /// Writes the name.
    pub fn encode(&self, encoder: &mut TestMailEncoder) -> (r: Result<(), EncodingError>)
        ensures
            r is Ok,
            final(encoder).line() == old(encoder).line() + self@,
            final(encoder).states() == old(encoder).states(),
            final(encoder).spec_mail_type() == old(encoder).spec_mail_type(),
    {
        proof {
            use_type_invariant(self);
            assert forall|i: int| 0 <= i < self.0@.len() implies spec_is_ascii(
                #[trigger] self.0@[i],
            ) by {
                assert(spec_is_name_char(self.0@[i]));
            }
        }
        encoder.write_str(self.0.as_str());
        Ok(())
    }
}

impl Clone for HeaderName {
    fn clone(&self) -> (r: Self)
        ensures
            r@ == self@,
    {
        proof {
            use_type_invariant(self);
        }
        HeaderName(self.0.clone())
    }
}

} // verus!
