//! A string which is known to be ascii, or which may hold any utf8.
use vstd::prelude::*;

use crate::data::input::Input;
use crate::grammar::{all_ascii, lemma_all_ascii_is_ascii_chars};
use crate::utils::{str_chars, string_from_chars};

verus! {

/// A string tagged with whether it is ascii.
#[derive(Debug, Hash, PartialEq, Eq)]
pub enum SimpleItem {
    /// the item is valid ascii, nothing more
    Ascii(String),
    /// the item is valid utf8, nothing more
    Utf8(String),
}

impl View for SimpleItem {
    type V = Seq<char>;

    open spec fn view(&self) -> Seq<char> {
        match self {
            SimpleItem::Ascii(s) => s@,
            SimpleItem::Utf8(s) => s@,
        }
    }
}

impl Clone for SimpleItem {
    fn clone(&self) -> (r: Self)
        ensures
            r@ == self@,
            r is Ascii <==> self is Ascii,
    {
        match self {
            SimpleItem::Ascii(s) => SimpleItem::Ascii(s.clone()),
            SimpleItem::Utf8(s) => SimpleItem::Utf8(s.clone()),
        }
    }
}

impl SimpleItem {
    /// An `Ascii` item holds ascii chars only.
    pub open spec fn wf(&self) -> bool {
        self is Ascii ==> all_ascii(self@)
    }

    /// The item's text.
    pub fn as_str(&self) -> (r: &str)
        ensures
            r@ == self@,
    {
        match self {
            SimpleItem::Ascii(value) => value.as_str(),
            SimpleItem::Utf8(value) => value.as_str(),
        }
    }

    /// Whether the item is tagged as ascii.
    pub fn is_ascii(&self) -> (r: bool)
        ensures
            r == (self is Ascii),
    {
        match self {
            SimpleItem::Ascii(_) => true,
            SimpleItem::Utf8(_) => false,
        }
    }

    /// A utf8 item holding `s`.
    pub fn from_utf8(s: String) -> (r: Self)
        ensures
            r == SimpleItem::Utf8(s),
            r.wf(),
    {
        SimpleItem::Utf8(s)
    }

    /// A utf8 item holding the text of `input`.
    pub fn from_utf8_input(input: Input) -> (r: Self)
        ensures
            r is Utf8,
            r@ == input@,
            r.wf(),
    {
        SimpleItem::Utf8(string_from_chars(str_chars(input.as_str()).as_slice()))
    }

    /// An item holding the text of `input`, tagged as ascii iff it is
    /// ascii.
    pub fn from_input(input: Input) -> (r: Self)
        ensures
            r@ == input@,
            r.wf(),
            r is Ascii <==> all_ascii(input@),
    {
        SimpleItem::from_string(string_from_chars(str_chars(input.as_str()).as_slice()))
    }

    /// An item holding `s`, tagged as ascii iff `s` is ascii.
    pub fn from_string(s: String) -> (r: Self)
        ensures
            r@ == s@,
            r.wf(),
            r is Ascii <==> all_ascii(s@),
    {
        proof {
            lemma_all_ascii_is_ascii_chars(s@);
        }
        if s.as_str().is_ascii() {
            SimpleItem::Ascii(s)
        } else {
            SimpleItem::Utf8(s)
        }
    }

    /// The item's text as a `String`.
    pub fn into_string(self) -> (r: String)
        ensures
            r@ == self@,
    {
        match self {
            SimpleItem::Ascii(s) => s,
            SimpleItem::Utf8(s) => s,
        }
    }
}

} // verus!
