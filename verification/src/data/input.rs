//! Input text of a component, which may hold chars that need encoding to
//! appear in a mail.
use std::rc::Rc;
use vstd::prelude::*;

use crate::components::utils::item::{InnerAsciiItem, InnerUtf8Item};
use crate::grammar::{all_ascii, lemma_all_ascii_is_ascii_chars};
use crate::utils::{str_chars, string_from_chars};

verus! {

/// Input text, owned or shared.
#[derive(Debug, Clone, Hash, Eq, PartialEq)]
pub struct Input(pub InnerUtf8Item);

impl View for Input {
    type V = Seq<char>;

    open spec fn view(&self) -> Seq<char> {
        self.0@
    }
}

impl Input {
    /// An owned input holding `s`.
    pub fn from_str(s: &str) -> (r: Input)
        ensures
            r.0 is Owned,
            r@ == s@,
    {
        Input(InnerUtf8Item::Owned(string_from_chars(str_chars(s).as_slice())))
    }

    /// An owned input holding `s`.
    pub fn from_string(s: String) -> (r: Input)
        ensures
            r == Input(InnerUtf8Item::Owned(s)),
    {
        Input(InnerUtf8Item::Owned(s))
    }

    /// The text.
    pub fn as_str(&self) -> (r: &str)
        ensures
            r@ == self@,
    {
        self.0.as_str()
    }

    /// The same text, shared.
    pub fn into_shared(self) -> (r: Input)
        ensures
            r.0 is Shared,
            r@ == self@,
    {
        match self.0 {
            InnerUtf8Item::Owned(value) => Input(InnerUtf8Item::Shared(Rc::new(value))),
            InnerUtf8Item::Shared(s) => Input(InnerUtf8Item::Shared(s)),
        }
    }

    /// The text as an owned ascii item; gives the input back if it is not
    /// ascii.
    pub fn into_ascii_item(self) -> (r: Result<InnerAsciiItem, Input>)
        ensures
            all_ascii(self@) ==> (r matches Ok(a) && a is Owned && a@ == self@ && a.wf()),
            !all_ascii(self@) ==> r == Err::<InnerAsciiItem, Input>(self),
    {
        proof {
            lemma_all_ascii_is_ascii_chars(self@);
        }
        if self.as_str().is_ascii() {
            Ok(InnerAsciiItem::Owned(string_from_chars(str_chars(self.as_str()).as_slice())))
        } else {
            Err(self)
        }
    }

    /// The text as an owned ascii item; the text must be ascii.
    pub fn into_ascii_item_unchecked(self) -> (r: InnerAsciiItem)
        requires
            all_ascii(self@),
        ensures
            r is Owned,
            r@ == self@,
            r.wf(),
    {
        InnerAsciiItem::Owned(string_from_chars(str_chars(self.as_str()).as_slice()))
    }

    /// The text as a utf8 item.
    pub fn into_utf8_item(self) -> (r: InnerUtf8Item)
        ensures
            r == self.0,
    {
        self.0
    }
}

} // verus!
