//! Header names.
use vstd::prelude::*;

use crate::error::EncodingError;
use crate::grammar::{code, is_ftext, lemma_char_code};
use crate::utils::str_chars;

pub mod map;
pub mod default_header;

verus! {

/// All headers whose header field may appear at most once implement this
/// marker (it is what makes a single lookup of them possible).
pub trait SingularHeaderMarker {}

pub open spec fn is_lower(c: char) -> bool {
    'a' <= c <= 'z'
}

pub open spec fn is_upper(c: char) -> bool {
    'A' <= c <= 'Z'
}

pub open spec fn is_digit(c: char) -> bool {
    '0' <= c <= '9'
}

pub open spec fn is_alnum(c: char) -> bool {
    is_lower(c) || is_upper(c) || is_digit(c)
}

/// A header name as this library accepts it: at least one char, all of
/// them printable ascii but `:` (RFC 5322), and "snake case": a letter is
/// upper case iff it starts a run of letters and digits.
pub open spec fn spec_is_valid_header_name(s: Seq<char>) -> bool {
    &&& s.len() >= 1
    &&& forall|i: int| 0 <= i < s.len() ==> 33 <= code(#[trigger] s[i]) <= 126 && s[i] != ':'
    &&& forall|i: int|
        0 <= i < s.len() ==> (is_lower(#[trigger] s[i]) ==> i > 0 && is_alnum(s[i - 1]))
    &&& forall|i: int|
        0 <= i < s.len() ==> (is_upper(#[trigger] s[i]) ==> i == 0 || !is_alnum(s[i - 1]))
}

/// The name of a header field, e.g. `Message-Id`.
#[derive(Debug, Clone, Copy, PartialEq, Eq, Hash)]
pub struct HeaderName {
    name: &'static str,
}

impl View for HeaderName {
    type V = Seq<char>;

    closed spec fn view(&self) -> Seq<char> {
        self.name@
    }
}

impl HeaderName {
    #[verifier::type_invariant]
    spec fn inv(self) -> bool {
        spec_is_valid_header_name(self.name@)
    }

    /// A header name; fails with `InvalidHeaderName` unless `name` is valid.
    ///
    /// Only names with the letter case of RFC 5322 are accepted: the first
    /// char of each alphanumeric part is upper case, all others lower case
    /// (`Message-Id` is accepted, `Message-ID` is not).
    pub fn new(name: &'static str) -> (r: Result<Self, EncodingError>)
        ensures
            spec_is_valid_header_name(name@) ==> (r matches Ok(h) && h@ == name@),
            !spec_is_valid_header_name(name@) ==> r == Err::<Self, EncodingError>(
                EncodingError::InvalidHeaderName,
            ),
    {
        match HeaderName::validate_name(name) {
            Ok(()) => Ok(HeaderName { name }),
            Err(e) => Err(e),
        }
    }

    /// A header name from a name already known to be valid, without
    /// checking it at run time.
    pub fn from_ascii_unchecked(name: &'static str) -> (r: Self)
        requires
            spec_is_valid_header_name(name@),
        ensures
            r@ == name@,
    {
        HeaderName { name }
    }

    /// The name as a `&str`.
    pub fn as_str(&self) -> (r: &'static str)
        ensures
            r@ == self@,
            spec_is_valid_header_name(r@),
    {
        proof {
            use_type_invariant(self);
        }
        self.name
    }

    /// Checks that `name` is a valid header name (see `new`).
    pub fn validate_name(name: &str) -> (r: Result<(), EncodingError>)
        ensures
            spec_is_valid_header_name(name@) ==> r is Ok,
            !spec_is_valid_header_name(name@) ==> r == Err::<(), EncodingError>(
                EncodingError::InvalidHeaderName,
            ),
    {
        let s = str_chars(name);
        let mut begin_of_word = true;
        if s.len() < 1 {
            return Err(EncodingError::InvalidHeaderName);
        }
        let mut i: usize = 0;
        while i < s.len()
            invariant
                s@ == name@,
                s.len() >= 1,
                i <= s.len(),
                begin_of_word == (i == 0 || !is_alnum(s@[i - 1])),
                forall|j: int| 0 <= j < i ==> 33 <= code(#[trigger] s@[j]) <= 126 && s@[j] != ':',
                forall|j: int|
                    0 <= j < i ==> (is_lower(#[trigger] s@[j]) ==> j > 0 && is_alnum(s@[j - 1])),
                forall|j: int|
                    0 <= j < i ==> (is_upper(#[trigger] s@[j]) ==> j == 0 || !is_alnum(s@[j - 1])),
            decreases s.len() - i,
        {
            let ch = s[i];
            if !is_ftext(ch) {
                proof {
                    assert(!(33 <= code(s@[i as int]) <= 126 && s@[i as int] != ':'));
                }
                return Err(EncodingError::InvalidHeaderName);
            }
            if 'a' <= ch && ch <= 'z' {
                if begin_of_word {
                    proof {
                        assert(is_lower(s@[i as int]));
                    }
                    return Err(EncodingError::InvalidHeaderName);
                }
            } else if 'A' <= ch && ch <= 'Z' {
                if begin_of_word {
                    begin_of_word = false;
                } else {
                    proof {
                        assert(is_upper(s@[i as int]));
                    }
                    return Err(EncodingError::InvalidHeaderName);
                }
            } else if '0' <= ch && ch <= '9' {
                begin_of_word = false;
            } else {
                if ch < '!' || ch > '~' || ch == ':' {
                    proof {
                        lemma_char_code(ch);
                        assert('!' as int == 33);
                        assert('~' as int == 126);
                        assert(!(33 <= code(s@[i as int]) <= 126 && s@[i as int] != ':'));
                    }
                    return Err(EncodingError::InvalidHeaderName);
                }
                begin_of_word = true;
            }
            proof {
                lemma_char_code(ch);
                assert('!' as int == 33);
                assert('~' as int == 126);
            }
            i = i + 1;
        }
        Ok(())
    }
}

} // verus!
