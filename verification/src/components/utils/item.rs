//! Text containers of components, owned or shared: inputs (which may
//! need encoding to appear in a mail), ascii items and utf8 items.
use std::rc::Rc;
use vstd::prelude::*;

use crate::codec::quote::Quoted;
use crate::data::simple_item::SimpleItem;
use crate::grammar::{all_ascii, lemma_all_ascii_is_ascii_chars};
use crate::utils::{str_chars, str_eq, string_from_chars};

verus! {

/// Text which may hold chars that need encoding (e.g. as encoded words)
/// to appear in a mail; owned, or shared behind a reference count.
#[derive(Debug, Clone, Hash, Eq)]
pub enum Input {
    Owned(String),
    Shared(Rc<String>),
}

impl View for Input {
    type V = Seq<char>;

    open spec fn view(&self) -> Seq<char> {
        match self {
            Input::Owned(s) => s@,
            Input::Shared(s) => (**s)@,
        }
    }
}

impl PartialEq for Input {
    fn eq(&self, other: &Input) -> (r: bool) {
        str_eq(self.as_str(), other.as_str())
    }
}

impl vstd::std_specs::cmp::PartialEqSpecImpl for Input {
    open spec fn obeys_eq_spec() -> bool {
        true
    }

    open spec fn eq_spec(&self, other: &Input) -> bool {
        self@ == other@
    }
}

impl From<String> for Input {
    fn from(s: String) -> (r: Input) {
        Input::Owned(s)
    }
}

impl vstd::std_specs::convert::FromSpecImpl<String> for Input {
    open spec fn obeys_from_spec() -> bool {
        true
    }

    open spec fn from_spec(s: String) -> Input {
        Input::Owned(s)
    }
}

impl Input {
    /// An owned input holding `s`.
    pub fn from_str(s: &str) -> (r: Input)
        ensures
            r is Owned,
            r@ == s@,
    {
        Input::Owned(string_from_chars(str_chars(s).as_slice()))
    }

    /// The text.
    pub fn as_str(&self) -> (r: &str)
        ensures
            r@ == self@,
    {
        match self {
            Input::Owned(s) => s.as_str(),
            Input::Shared(s) => s.as_str(),
        }
    }

    /// The same text, shared.
    pub fn into_shared(self) -> (r: Input)
        ensures
            r is Shared,
            r@ == self@,
    {
        match self {
            Input::Owned(value) => Input::Shared(Rc::new(value)),
            Input::Shared(s) => Input::Shared(s),
        }
    }

    /// The text as a simple item, tagged as ascii iff it is ascii.
    pub fn into_simple_item(self) -> (r: SimpleItem)
        ensures
            r@ == self@,
            r.wf(),
            r is Ascii <==> all_ascii(self@),
    {
        let text = string_from_chars(str_chars(self.as_str()).as_slice());
        SimpleItem::from_string(text)
    }

    /// The text as an ascii item; fails with the text if it is not
    /// ascii.
    pub fn into_ascii_item(self) -> (r: Result<InnerAsciiItem, String>)
        ensures
            all_ascii(self@) ==> (r matches Ok(a) && a@ == self@ && a is Owned && a.wf()),
            !all_ascii(self@) ==> (r matches Err(s) && s@ == self@),
    {
        proof {
            lemma_all_ascii_is_ascii_chars(self@);
        }
        let text = string_from_chars(str_chars(self.as_str()).as_slice());
        if self.as_str().is_ascii() {
            Ok(InnerAsciiItem::Owned(text))
        } else {
            Err(text)
        }
    }

    /// The text as an ascii item; the text must be ascii.
    pub fn into_ascii_item_unchecked(self) -> (r: InnerAsciiItem)
        requires
            all_ascii(self@),
        ensures
            r is Owned,
            r@ == self@,
            r.wf(),
    {
        InnerAsciiItem::Owned(string_from_chars(str_chars(self.as_str()).as_slice()))
    }

    /// The text as a utf8 item, owned or shared as it was.
    pub fn into_utf8_item(self) -> (r: InnerUtf8Item)
        ensures
            r@ == self@,
            r is Owned <==> self is Owned,
    {
        match self {
            Input::Owned(s) => InnerUtf8Item::Owned(s),
            Input::Shared(s) => InnerUtf8Item::Shared(s),
        }
    }
}

/// Text known to be ascii (see `wf`), owned or shared.
#[derive(Debug, Clone, Hash, Eq)]
pub enum InnerAsciiItem {
    Owned(String),
    Shared(Rc<String>),
}

impl View for InnerAsciiItem {
    type V = Seq<char>;

    open spec fn view(&self) -> Seq<char> {
        match self {
            InnerAsciiItem::Owned(s) => s@,
            InnerAsciiItem::Shared(s) => (**s)@,
        }
    }
}

impl PartialEq for InnerAsciiItem {
    fn eq(&self, other: &InnerAsciiItem) -> (r: bool) {
        str_eq(self.as_str(), other.as_str())
    }
}

impl vstd::std_specs::cmp::PartialEqSpecImpl for InnerAsciiItem {
    open spec fn obeys_eq_spec() -> bool {
        true
    }

    open spec fn eq_spec(&self, other: &InnerAsciiItem) -> bool {
        self@ == other@
    }
}

impl InnerAsciiItem {
    /// The item holds ascii chars only.
    pub open spec fn wf(&self) -> bool {
        all_ascii(self@)
    }

    /// An owned item holding `data`; `None` if it is not ascii.
    pub fn new(data: &str) -> (r: Option<InnerAsciiItem>)
        ensures
            all_ascii(data@) ==> (r matches Some(a) && a is Owned && a@ == data@ && a.wf()),
            !all_ascii(data@) ==> r is None,
    {
        proof {
            lemma_all_ascii_is_ascii_chars(data@);
        }
        if data.is_ascii() {
            Some(InnerAsciiItem::Owned(string_from_chars(str_chars(data).as_slice())))
        } else {
            None
        }
    }

    /// The text.
    pub fn as_str(&self) -> (r: &str)
        ensures
            r@ == self@,
    {
        match self {
            InnerAsciiItem::Owned(s) => s.as_str(),
            InnerAsciiItem::Shared(s) => s.as_str(),
        }
    }
}

/// Text of any utf8 chars, owned or shared.
#[derive(Debug, Clone, Hash, Eq)]
pub enum InnerUtf8Item {
    Owned(String),
    Shared(Rc<String>),
}

impl View for InnerUtf8Item {
    type V = Seq<char>;

    open spec fn view(&self) -> Seq<char> {
        match self {
            InnerUtf8Item::Owned(s) => s@,
            InnerUtf8Item::Shared(s) => (**s)@,
        }
    }
}

impl PartialEq for InnerUtf8Item {
    fn eq(&self, other: &InnerUtf8Item) -> (r: bool) {
        str_eq(self.as_str(), other.as_str())
    }
}

impl vstd::std_specs::cmp::PartialEqSpecImpl for InnerUtf8Item {
    open spec fn obeys_eq_spec() -> bool {
        true
    }

    open spec fn eq_spec(&self, other: &InnerUtf8Item) -> bool {
        self@ == other@
    }
}

impl InnerUtf8Item {
    /// An owned item holding `data`.
    pub fn new(data: String) -> (r: InnerUtf8Item)
        ensures
            r == InnerUtf8Item::Owned(data),
    {
        InnerUtf8Item::Owned(data)
    }

    /// The text.
    pub fn as_str(&self) -> (r: &str)
        ensures
            r@ == self@,
    {
        match self {
            InnerUtf8Item::Owned(s) => s.as_str(),
            InnerUtf8Item::Shared(s) => s.as_str(),
        }
    }
}

/// An item of a component: an input (one word, which may need encoding),
/// an encoded word, or a quoted string.
#[derive(Debug, Clone, Hash, Eq, PartialEq)]
pub enum Item {
    Input(Input),
    EncodedWord(InnerAsciiItem),
    QuotedString(Quoted),
}

} // verus!
