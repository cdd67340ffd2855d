//! The content transfer encoding of a body.
#![allow(non_camel_case_types)]
use vstd::prelude::*;

use crate::codec::encoder::{EncodeHeaderHandle, TokenView};
use crate::error::EncodingError;
use crate::grammar::{all_ascii, lemma_all_ascii_is_ascii_chars};
use crate::utils::{str_chars, string_from_chars};

verus! {

/// An ascii token naming a transfer encoding which is not one of the
/// standard ones.
#[derive(Debug, Eq, PartialEq, Hash)]
pub struct Token(String);

impl Clone for Token {
    fn clone(&self) -> (r: Self)
        ensures
            r@ == self@,
    {
        proof {
            use_type_invariant(self);
        }
        Token(self.0.clone())
    }
}

impl View for Token {
    type V = Seq<char>;

    closed spec fn view(&self) -> Seq<char> {
        self.0@
    }
}

impl Token {
    #[verifier::type_invariant]
    spec fn inv(self) -> bool {
        all_ascii(self.0@)
    }

    /// A token holding `s`; `None` if `s` is not ascii.
    pub fn from_ascii(s: &str) -> (r: Option<Token>)
        ensures
            all_ascii(s@) ==> (r matches Some(t) && t@ == s@),
            !all_ascii(s@) ==> r is None,
    {
        proof {
            lemma_all_ascii_is_ascii_chars(s@);
        }
        if s.is_ascii() {
            Some(Token(string_from_chars(str_chars(s).as_slice())))
        } else {
            None
        }
    }

    /// The token's text.
    pub fn as_str(&self) -> (r: &str)
        ensures
            r@ == self@,
            all_ascii(r@),
    {
        proof {
            use_type_invariant(self);
        }
        self.0.as_str()
    }

    /// Whether it is an extension token: `X-` or `x-` followed by more.
    ///
    /// # Panics
    /// if the token has less than two chars (excluded by the precondition)
    pub fn is_x_token(&self) -> (r: bool)
        requires
            self@.len() >= 2,
        ensures
            r == (self@[1] == '-' && (self@[0] == 'X' || self@[0] == 'x')),
    {
        let chars = str_chars(self.0.as_str());
        chars[1] == '-' && (chars[0] == 'X' || chars[0] == 'x')
    }
}

/// The content transfer encodings.
#[derive(Debug, Clone, Eq, PartialEq, Hash)]
pub enum TransferEncoding {
    _7Bit,
    _8Bit,
    Binary,
    QuotedPrintable,
    Base64,
    Other(Token),
}

impl TransferEncoding {
    pub open spec fn spec_name(&self) -> Seq<char> {
        match self {
            TransferEncoding::_7Bit => seq!['7', 'b', 'i', 't'],
            TransferEncoding::_8Bit => seq!['8', 'b', 'i', 't'],
            TransferEncoding::Binary => seq!['b', 'i', 'n', 'a', 'r', 'y'],
            TransferEncoding::QuotedPrintable => seq![
                'q', 'u', 'o', 't', 'e', 'd', '-', 'p', 'r', 'i', 'n', 't', 'a', 'b', 'l', 'e'
            ],
            TransferEncoding::Base64 => seq!['b', 'a', 's', 'e', '6', '4'],
            TransferEncoding::Other(t) => t@,
        }
    }

    /// The name of the encoding as written in a header.
    pub fn name(&self) -> (r: &str)
        ensures
            r@ == self.spec_name(),
            all_ascii(r@),
    {
        proof {
            reveal_strlit("7bit");
            reveal_strlit("8bit");
            reveal_strlit("binary");
            reveal_strlit("quoted-printable");
            reveal_strlit("base64");
        }
        match self {
            TransferEncoding::_7Bit => "7bit",
            TransferEncoding::_8Bit => "8bit",
            TransferEncoding::Binary => "binary",
            TransferEncoding::QuotedPrintable => "quoted-printable",
            TransferEncoding::Base64 => "base64",
            TransferEncoding::Other(token) => token.as_str(),
        }
    }

    /// Writes the name into a header.
    pub fn encode(&self, handle: &mut EncodeHeaderHandle) -> (r: Result<(), EncodingError>)
        requires
            old(handle).wf(),
        ensures
            final(handle).wf(),
            ({
                let (v, e) = old(handle)@.with_token(TokenView::NowStr).write_chars(self.spec_name());
                &&& final(handle)@ == v
                &&& e is None ==> r is Ok
                &&& e matches Some(err) ==> r == Err::<(), EncodingError>(err)
            }),
    {
        let name = self.name();
        proof {
            lemma_all_ascii_is_ascii_chars(name@);
        }
        handle.write_str(name)
    }
}

} // verus!
