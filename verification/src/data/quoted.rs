//! A quoted string as a header component.
use vstd::prelude::*;

use crate::codec::encoder::{EncodeHeaderHandle, HeaderView, TokenView};
use crate::codec::quote::{spec_unquote, unquote_body, unquote_str};
use crate::codec::quoted_string::{self, escaped, quote_tail, spec_quote};
use crate::data::simple_item::SimpleItem;
use crate::error::EncodingError;
use crate::grammar::{
    MailType, all_ascii, is_quoted_string, quoted_body_ok, spec_is_ascii, spec_is_qtext,
    spec_is_quoted_string, spec_is_ws,
};

verus! {

/// Writing `s` as a quoted string: as ascii if the quoted string is
/// ascii, else as utf8 (which needs an internationalized mail); nothing is
/// written if `s` can not be quoted.
pub open spec fn spec_quoted_write(v: HeaderView, s: Seq<char>) -> (HeaderView, Result<(), EncodingError>) {
    match spec_quote(s) {
        Err(e) => (v, Err(e)),
        Ok((mt, q)) => if mt == MailType::Ascii {
            v.write_with(TokenView::NowStr, q)
        } else if v.mail_type != MailType::Internationalized {
            (v, Err(EncodingError::Utf8InAsciiMail))
        } else {
            v.write_with(TokenView::NowUtf8, q)
        },
    }
}

/// A quoted string, e.g. `"ab \"c\""`.
#[derive(Debug, Hash, PartialEq, Eq)]
pub struct QuotedString(SimpleItem);

impl Clone for QuotedString {
    fn clone(&self) -> (r: Self)
        ensures
            r@ == self@,
            r.item() is Ascii <==> self.item() is Ascii,
    {
        proof {
            use_type_invariant(self);
        }
        QuotedString(self.0.clone())
    }
}

impl View for QuotedString {
    type V = Seq<char>;

    closed spec fn view(&self) -> Seq<char> {
        self.0@
    }
}

impl QuotedString {
    #[verifier::type_invariant]
    spec fn inv(self) -> bool {
        &&& self.0.wf()
        &&& spec_unquote(self.0@) is Some
    }

    /// The item holding the quoted string.
    pub closed spec fn item(&self) -> SimpleItem {
        self.0
    }

    /// Quotes `input` and writes it into `handle`: as ascii if the quoted
    /// string is ascii, else as utf8 (which needs an internationalized mail).
    pub fn write_into(handle: &mut EncodeHeaderHandle, input: &str) -> (r: Result<
        (),
        EncodingError,
    >)
        requires
            old(handle).wf(),
        ensures
            final(handle).wf(),
            (final(handle)@, r) == spec_quoted_write(old(handle)@, input@),
    {
        let quoted = match QuotedString::quote(input) {
            Ok(q) => q,
            Err(e) => return Err(e),
        };
        proof {
            use_type_invariant(&quoted);
            crate::grammar::lemma_all_ascii_is_ascii_chars(quoted@);
        }
        let r = match &quoted.0 {
            SimpleItem::Ascii(inner) => handle.write_str(inner.as_str()),
            SimpleItem::Utf8(inner) => handle.write_utf8(inner.as_str()),
        };
        proof {
            let (mt, q) = spec_quote(input@)->Ok_0;
            assert(q == quoted@);
            let tok = if mt == MailType::Ascii { TokenView::NowStr } else { TokenView::NowUtf8 };
            let (v, e) = old(handle)@.with_token(tok).write_chars(q);
            if let Ok(u) = r {
                let unit: () = u;
                assert(r == Ok::<(), EncodingError>(unit));
            }
        }
        r
    }

    /// Takes an item which already is a quoted string (RFC 5322 / RFC 6532).
    ///
    /// Fails with `Malformed` if it is not one.
    pub fn parse(already_quoted: SimpleItem) -> (r: Result<Self, EncodingError>)
        requires
            already_quoted.wf(),
        ensures
            spec_is_quoted_string(already_quoted@, MailType::Internationalized) ==> (r matches Ok(
                q,
            ) && q.item() == already_quoted),
            !spec_is_quoted_string(already_quoted@, MailType::Internationalized) ==> r
                == Err::<Self, EncodingError>(EncodingError::Malformed),
    {
        if is_quoted_string(already_quoted.as_str(), MailType::Internationalized) {
            proof {
                lemma_quoted_string_unquotes(already_quoted@, 1, MailType::Internationalized);
            }
            Ok(QuotedString(already_quoted))
        } else {
            Err(EncodingError::Malformed)
        }
    }

    /// Quotes `input`; the result is an ascii item if `input` is ascii.
    pub fn quote(input: &str) -> (r: Result<Self, EncodingError>)
        ensures
            match spec_quote(input@) {
                Ok((mt, q)) => r matches Ok(v) && v@ == q && (v.item() is Ascii <==> mt
                    == MailType::Ascii),
                Err(e) => r == Err::<Self, EncodingError>(e),
            },
    {
        let (mt, res) = match quoted_string::quote(input) {
            Ok(v) => v,
            Err(e) => return Err(e),
        };
        proof {
            let s = input@;
            let t = quote_tail(s, 0, false)->Ok_0;
            assert(res@ =~= seq!['"'] + t);
            lemma_quote_tail_unquotes(s, 0, false);
            assert(res@.skip(1) =~= t);
            assert(s.skip(0) =~= s);
            if mt == MailType::Ascii {
                lemma_quote_tail_ascii(s, 0, false);
                assert forall|j: int| 0 <= j < res@.len() implies #[trigger] spec_is_ascii(
                    res@[j],
                ) by {
                    if j > 0 {
                        assert(res@[j] == t[j - 1]);
                    }
                }
            }
        }
        if mt == MailType::Ascii {
            Ok(QuotedString(SimpleItem::Ascii(res)))
        } else {
            Ok(QuotedString(SimpleItem::from_utf8(res)))
        }
    }

    /// The content of the quoted string, as an ascii item if the quoted
    /// string is one.
    ///
    /// # Panics
    /// never: a `QuotedString` always holds a valid quoted string
    pub fn unquote(&self) -> (r: SimpleItem)
        ensures
            r@ == spec_unquote(self@)->0,
            r is Ascii <==> self.item() is Ascii,
            r.wf(),
    {
        proof {
            use_type_invariant(self);
        }
        let out = unquote_str(self.0.as_str());
        if self.0.is_ascii() {
            proof {
                lemma_unquote_body_ascii(self.0@.skip(1));
                assert forall|j: int| 0 <= j < self.0@.skip(1).len() implies #[trigger] spec_is_ascii(
                    self.0@.skip(1)[j],
                ) by {
                    assert(self.0@.skip(1)[j] == self.0@[j + 1]);
                }
            }
            SimpleItem::Ascii(out)
        } else {
            SimpleItem::Utf8(out)
        }
    }

    /// The quoted string as a `String`.
    pub fn into_string(self) -> (r: String)
        ensures
            r@ == self@,
    {
        self.0.into_string()
    }

    /// The item holding the quoted string.
    pub fn as_item(&self) -> (r: &SimpleItem)
        ensures
            *r == self.item(),
    {
        &self.0
    }
}

/// Unquoting the quoted form of `s` (from index `i` on) gives back
/// `s` from `i` on.
proof fn lemma_quote_tail_unquotes(s: Seq<char>, i: int, ascii_only: bool)
    requires
        0 <= i <= s.len(),
        quote_tail(s, i, ascii_only) is Ok,
    ensures
        unquote_body(quote_tail(s, i, ascii_only)->Ok_0) == Some(s.skip(i)),
    decreases s.len() - i,
{
    let t = quote_tail(s, i, ascii_only)->Ok_0;
    if i == s.len() {
        assert(t =~= seq!['"']);
        assert(s.skip(i) =~= Seq::<char>::empty());
    } else {
        let c = s[i];
        lemma_quote_tail_unquotes(s, i + 1, ascii_only);
        let t2 = quote_tail(s, i + 1, ascii_only)->Ok_0;
        assert(t =~= escaped(c) + t2);
        assert(s.skip(i) =~= seq![c] + s.skip(i + 1));
        if spec_is_qtext(c, MailType::Internationalized) || spec_is_ws(c) {
            assert(t.skip(1) =~= t2);
        } else {
            assert(t.skip(2) =~= t2);
        }
    }
}

/// The quoted form of ascii chars is ascii.
proof fn lemma_quote_tail_ascii(s: Seq<char>, i: int, ascii_only: bool)
    requires
        0 <= i <= s.len(),
        quote_tail(s, i, ascii_only) is Ok,
        forall|j: int| i <= j < s.len() ==> #[trigger] spec_is_ascii(s[j]),
    ensures
        all_ascii(quote_tail(s, i, ascii_only)->Ok_0),
    decreases s.len() - i,
{
    let t = quote_tail(s, i, ascii_only)->Ok_0;
    if i == s.len() {
        assert(t =~= seq!['"']);
        assert(spec_is_ascii(t[0]));
    } else {
        let c = s[i];
        assert(spec_is_ascii(c));
        lemma_quote_tail_ascii(s, i + 1, ascii_only);
        let t2 = quote_tail(s, i + 1, ascii_only)->Ok_0;
        let e = escaped(c);
        assert(t =~= e + t2);
        assert forall|j: int| 0 <= j < t.len() implies #[trigger] spec_is_ascii(t[j]) by {
            if j >= e.len() {
                assert(t[j] == t2[j - e.len()]);
            }
        }
    }
}

/// A quoted string (by the grammar) can be unquoted.
proof fn lemma_quoted_string_unquotes(s: Seq<char>, i: int, tp: MailType)
    requires
        0 <= i,
        quoted_body_ok(s, i, tp),
    ensures
        unquote_body(s.skip(i)) is Some,
    decreases s.len() - i,
{
    let rest = s.skip(i);
    assert(rest[0] == s[i]);
    if s[i] == '\\' {
        lemma_quoted_string_unquotes(s, i + 2, tp);
        assert(rest.skip(2) =~= s.skip(i + 2));
    } else if s[i] == '"' {
    } else {
        lemma_quoted_string_unquotes(s, i + 1, tp);
        assert(rest.skip(1) =~= s.skip(i + 1));
    }
}

/// Unquoting ascii gives ascii.
proof fn lemma_unquote_body_ascii(s: Seq<char>)
    requires
        all_ascii(s),
        unquote_body(s) is Some,
    ensures
        all_ascii(unquote_body(s)->0),
    decreases s.len(),
{
    let u = unquote_body(s)->0;
    if s[0] == '\\' {
        assert forall|j: int| 0 <= j < s.skip(2).len() implies #[trigger] spec_is_ascii(
            s.skip(2)[j],
        ) by {
            assert(s.skip(2)[j] == s[j + 2]);
        }
        lemma_unquote_body_ascii(s.skip(2));
        let u2 = unquote_body(s.skip(2))->0;
        assert(u =~= seq![s[1]] + u2);
        assert forall|j: int| 0 <= j < u.len() implies #[trigger] spec_is_ascii(u[j]) by {
            if j > 0 {
                assert(u[j] == u2[j - 1]);
            }
        }
    } else if s[0] == '"' {
    } else {
        assert forall|j: int| 0 <= j < s.skip(1).len() implies #[trigger] spec_is_ascii(
            s.skip(1)[j],
        ) by {
            assert(s.skip(1)[j] == s[j + 1]);
        }
        lemma_unquote_body_ascii(s.skip(1));
        let u2 = unquote_body(s.skip(1))->0;
        assert(u =~= seq![s[0]] + u2);
        assert forall|j: int| 0 <= j < u.len() implies #[trigger] spec_is_ascii(u[j]) by {
            if j > 0 {
                assert(u[j] == u2[j - 1]);
            }
        }
    }
}

/// Unquoting what `QuotedString::quote` (and `quote`) made of `s` gives
/// back `s`.
pub proof fn lemma_unquote_of_quote(s: Seq<char>)
    requires
        spec_quote(s) is Ok,
    ensures
        spec_unquote(spec_quote(s)->Ok_0.1) == Some(s),
{
    let t = quote_tail(s, 0, false)->Ok_0;
    let q = seq!['"'] + t;
    lemma_quote_tail_unquotes(s, 0, false);
    assert(q.skip(1) =~= t);
    assert(s.skip(0) =~= s);
}

} // verus!
