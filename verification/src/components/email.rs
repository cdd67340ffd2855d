//! Email addresses `local-part@domain` (RFC 5322 addr-spec).
use vstd::prelude::*;

use crate::codec::encoder::{
    EncodeHeaderHandle, HeaderView, TokenView, lemma_write_chars_keeps_mail_type,
};
use crate::codec::idna::{idna_to_ascii, puny_code_domain};
use crate::codec::quoted_string::{quote_for, spec_quote_for};
use crate::data::simple_item::SimpleItem;
use crate::error::EncodingError;
use crate::grammar::{
    MailType, all_ascii, is_ascii, is_atext, is_dtext, is_ws, lemma_all_ascii_is_ascii_chars,
    spec_is_atext, spec_is_dtext, spec_is_ws,
};
use crate::utils::{str_chars, string_from_chars};
use vstd::string::StrSliceExecFns;

verus! {

/// `s` has the form of a domain literal: `[`...`]`.
pub open spec fn is_literal_form(s: Seq<char>) -> bool {
    s.len() >= 2 && s[0] == '[' && s.last() == ']'
}

/// The chars of a domain literal between its brackets are dtext or
/// whitespace.
pub open spec fn literal_ok(s: Seq<char>) -> bool {
    forall|i: int|
        1 <= i < s.len() - 1 ==> spec_is_dtext(#[trigger] s[i], MailType::Internationalized)
            || spec_is_ws(s[i])
}

/// A dot-atom text: non-empty atoms of atext chars, separated by single
/// dots, with no dot at the start or the end.
pub open spec fn dot_atom_ok(s: Seq<char>) -> bool {
    &&& s.len() > 0
    &&& s.last() != '.'
    &&& forall|i: int|
        0 <= i < s.len() ==> (if #[trigger] s[i] == '.' {
            i > 0 && s[i - 1] != '.'
        } else {
            spec_is_atext(s[i], MailType::Internationalized)
        })
}

/// Whether `s` is accepted as a domain.
pub open spec fn domain_ok(s: Seq<char>) -> bool {
    if is_literal_form(s) {
        literal_ok(s)
    } else {
        dot_atom_ok(s)
    }
}

/// With which token and text a domain item is written into a mail of
/// type `mt`: an ascii domain as it is, any other as utf8 in an
/// internationalized mail and as its punycode form else.
pub open spec fn domain_text(item: SimpleItem, mt: MailType) -> Result<(TokenView, Seq<char>), EncodingError> {
    match item {
        SimpleItem::Ascii(s) => Ok((TokenView::NowStr, s@)),
        SimpleItem::Utf8(s) => if mt == MailType::Internationalized {
            Ok((TokenView::NowUtf8, s@))
        } else {
            match idna_to_ascii(s@) {
                Some(a) => Ok((TokenView::NowStr, a)),
                None => Err(EncodingError::PunyCodingDomainFailed),
            }
        },
    }
}

/// Writing a text between two places where the line may be broken (the
/// first place is marked before the text is known).
pub open spec fn write_between_fws(v: HeaderView, t: Result<(TokenView, Seq<char>), EncodingError>) -> (
    HeaderView,
    Result<(), EncodingError>,
) {
    let v1 = v.mark_fws();
    match t {
        Err(e) => (v1, Err(e)),
        Ok((tok, s)) => {
            let (w, res) = v1.write_with(tok, s);
            if res is Ok {
                (w.mark_fws(), Ok(()))
            } else {
                (w, res)
            }
        },
    }
}

/// `s` is a dot-atom text for the mail type `mt`: atext chars, with
/// single dots between them.
pub open spec fn dot_atom_for(s: Seq<char>, mt: MailType) -> bool {
    s.len() > 0 && forall|i: int|
        0 <= i < s.len() ==> (if #[trigger] s[i] == '.' {
            0 < i && i + 1 < s.len() && s[i - 1] != '.'
        } else {
            spec_is_atext(s[i], mt)
        })
}

/// The text a local part is written as in a mail of type `mt`: as it is
/// if it is a dot-atom text, else as a quoted string.
pub open spec fn local_part_text(s: Seq<char>, mt: MailType) -> Result<Seq<char>, EncodingError> {
    if dot_atom_for(s, mt) {
        Ok(s)
    } else {
        match spec_quote_for(s, mt) {
            Ok((_, q)) => Ok(q),
            Err(e) => Err(e),
        }
    }
}

/// The token a local part text is written with: as ascii if it is
/// ascii, else without a check.
pub open spec fn local_part_token(t: Seq<char>) -> TokenView {
    if all_ascii(t) {
        TokenView::NowStr
    } else {
        TokenView::NowUnchecked
    }
}

/// Writing a local part: nothing is written if it can not be quoted.
pub open spec fn spec_local_part_encode(v: HeaderView, s: Seq<char>) -> (HeaderView, Result<(), EncodingError>) {
    match local_part_text(s, v.mail_type) {
        Err(e) => (v, Err(e)),
        Ok(t) => write_between_fws(v, Ok((local_part_token(t), t))),
    }
}

/// Writing an email: the local part, `@` and the domain, stopping at the
/// first error.
pub open spec fn spec_email_encode(v: HeaderView, local: Seq<char>, domain: SimpleItem) -> (
    HeaderView,
    Result<(), EncodingError>,
) {
    let (v1, r1) = spec_local_part_encode(v, local);
    if r1 is Err {
        (v1, r1)
    } else {
        let (v2, r2) = v1.write_one('@');
        if r2 is Err {
            (v2, r2)
        } else {
            write_between_fws(v2, domain_text(domain, v.mail_type))
        }
    }
}

/// An email: local part and domain.
#[derive(Debug, Clone, Hash, PartialEq, Eq)]
pub struct Email {
    pub local_part: LocalPart,
    pub domain: Domain,
}

/// The part of an email before the `@`.
#[derive(Debug, Clone, Hash, PartialEq, Eq)]
pub struct LocalPart(pub String);

/// The part of an email after the `@`.
#[derive(Debug, Hash, PartialEq, Eq)]
pub struct Domain(SimpleItem);

impl Clone for Domain {
    fn clone(&self) -> (r: Self)
        ensures
            r@ == self@,
            r.item() is Ascii <==> self.item() is Ascii,
    {
        proof {
            use_type_invariant(self);
        }
        Domain(self.0.clone())
    }
}

impl LocalPart {
    /// A local part holding `input`.
    pub fn from_input(input: &str) -> (r: Self)
        ensures
            r.0@ == input@,
    {
        LocalPart(string_from_chars(str_chars(input).as_slice()))
    }

    /// Writes the local part into a header between two places where the
    /// line may be broken: as it is if it is a dot-atom text for the mail
    /// type, else as a quoted string (which in an ascii mail must be
    /// ascii); fails without writing anything if it can not be quoted.
    pub fn encode(&self, handle: &mut EncodeHeaderHandle) -> (r: Result<(), EncodingError>)
        requires
            old(handle).wf(),
        ensures
            final(handle).wf(),
            (final(handle)@, r) == spec_local_part_encode(old(handle)@, self.0@),
    {
        let mt = handle.mail_type();
        let input: &str = self.0.as_str();
        let res: String = if is_dot_atom_for(input, mt) {
            string_from_chars(str_chars(input).as_slice())
        } else {
            match quote_for(input, mt) {
                Ok((_, quoted)) => quoted,
                Err(e) => return Err(e),
            }
        };
        handle.mark_fws_pos();
        proof {
            lemma_all_ascii_is_ascii_chars(res@);
        }
        let written = if res.as_str().is_ascii() {
            handle.write_str(res.as_str())
        } else {
            handle.write_str_unchecked(res.as_str())
        };
        match written {
            Ok(()) => {},
            Err(e) => return Err(e),
        }
        handle.mark_fws_pos();
        Ok(())
    }
}

/// Whether `s` is a dot-atom text for the mail type `mt`.
fn is_dot_atom_for(s: &str, mt: MailType) -> (r: bool)
    ensures
        r == dot_atom_for(s@, mt),
{
    let c = str_chars(s);
    if c.len() == 0 {
        return false;
    }
    let mut i: usize = 0;
    while i < c.len()
        invariant
            c@ == s@,
            c.len() > 0,
            i <= c.len(),
            forall|j: int|
                0 <= j < i ==> (if #[trigger] c@[j] == '.' {
                    0 < j && j + 1 < c@.len() && c@[j - 1] != '.'
                } else {
                    spec_is_atext(c@[j], mt)
                }),
        decreases c.len() - i,
    {
        if c[i] == '.' {
            if i == 0 || i + 1 >= c.len() || c[i - 1] == '.' {
                return false;
            }
        } else if !is_atext(c[i], mt) {
            return false;
        }
        i = i + 1;
    }
    true
}

impl View for Domain {
    type V = Seq<char>;

    closed spec fn view(&self) -> Seq<char> {
        self.0@
    }
}

impl Domain {
    #[verifier::type_invariant]
    spec fn inv(&self) -> bool {
        self.0.wf()
    }

    /// The domain as a simple item, which is ascii only if the domain is.
    pub closed spec fn item(&self) -> SimpleItem {
        self.0
    }

    /// Checks a domain: between its brackets a domain literal (`[`...`]`)
    /// must consist of dtext and whitespace, any other domain must be a
    /// dot-atom text. Gives `Ascii` if the domain is ascii, else
    /// `Internationalized`; fails with `Malformed` if it is invalid.
    pub fn check_domain(domain: &str) -> (r: Result<MailType, EncodingError>)
        ensures
            domain_ok(domain@) ==> r == Ok::<MailType, EncodingError>(
                if all_ascii(domain@) {
                    MailType::Ascii
                } else {
                    MailType::Internationalized
                },
            ),
            !domain_ok(domain@) ==> r == Err::<MailType, EncodingError>(EncodingError::Malformed),
    {
        let s = str_chars(domain);
        let mut ascii = true;
        proof {
            if s.len() >= 1 {
                assert(s@.last() == s@[s.len() - 1]);
            }
        }
        if s.len() >= 2 && s[0] == '[' && s[s.len() - 1] == ']' {
            let mut i: usize = 0;
            while i < s.len()
                invariant
                    s@ == domain@,
                    is_literal_form(s@),
                    i <= s.len(),
                    ascii == all_ascii(s@.take(i as int)),
                    forall|j: int|
                        1 <= j < i && j < s.len() - 1 ==> spec_is_dtext(
                            #[trigger] s@[j],
                            MailType::Internationalized,
                        ) || spec_is_ws(s@[j]),
                decreases s.len() - i,
            {
                let ch = s[i];
                proof {
                    assert(s@.take(i + 1) =~= s@.take(i as int).push(ch));
                    crate::grammar::lemma_all_ascii_push(s@.take(i as int), ch);
                }
                if ascii {
                    ascii = is_ascii(ch);
                }
                if 0 < i && i < s.len() - 1 && !(is_dtext(ch, MailType::Internationalized) || is_ws(
                    ch,
                )) {
                    return Err(EncodingError::Malformed);
                }
                i = i + 1;
            }
            proof {
                assert(s@.take(i as int) =~= s@);
            }
        } else {
            let mut dot_allowed = false;
            let mut i: usize = 0;
            while i < s.len()
                invariant
                    s@ == domain@,
                    !is_literal_form(s@),
                    i <= s.len(),
                    ascii == all_ascii(s@.take(i as int)),
                    dot_allowed == (i > 0 && s@[i - 1] != '.'),
                    forall|j: int|
                        0 <= j < i ==> (if #[trigger] s@[j] == '.' {
                            j > 0 && s@[j - 1] != '.'
                        } else {
                            spec_is_atext(s@[j], MailType::Internationalized)
                        }),
                decreases s.len() - i,
            {
                let ch = s[i];
                proof {
                    assert(s@.take(i + 1) =~= s@.take(i as int).push(ch));
                    crate::grammar::lemma_all_ascii_push(s@.take(i as int), ch);
                }
                if ascii {
                    ascii = is_ascii(ch);
                }
                if ch == '.' && dot_allowed {
                    dot_allowed = false;
                } else if !is_atext(ch, MailType::Internationalized) {
                    return Err(EncodingError::Malformed);
                } else {
                    dot_allowed = true;
                }
                i = i + 1;
            }
            proof {
                assert(s@.take(i as int) =~= s@);
            }
            if !dot_allowed {
                return Err(EncodingError::Malformed);
            }
        }
        if ascii {
            Ok(MailType::Ascii)
        } else {
            Ok(MailType::Internationalized)
        }
    }

    /// A domain holding `input`, as an ascii item if it is ascii; fails
    /// like `check_domain`.
    pub fn from_input(input: &str) -> (r: Result<Self, EncodingError>)
        ensures
            domain_ok(input@) ==> (r matches Ok(d) && d@ == input@ && (d.item() is Ascii
                <==> all_ascii(input@))),
            !domain_ok(input@) ==> r == Err::<Self, EncodingError>(EncodingError::Malformed),
    {
        let mt = match Domain::check_domain(input) {
            Ok(mt) => mt,
            Err(e) => return Err(e),
        };
        let text = string_from_chars(str_chars(input).as_slice());
        match mt {
            MailType::Ascii | MailType::Mime8BitEnabled => Ok(Domain(SimpleItem::Ascii(text))),
            MailType::Internationalized => Ok(Domain(SimpleItem::Utf8(text))),
        }
    }

    /// Writes the domain into a header, between two places where the line
    /// may be broken: an ascii domain as it is, any other as utf8 in an
    /// internationalized mail and in its punycode form else.
    pub fn encode(&self, handle: &mut EncodeHeaderHandle) -> (r: Result<(), EncodingError>)
        requires
            old(handle).wf(),
        ensures
            final(handle).wf(),
            (final(handle)@, r) == write_between_fws(
                old(handle)@,
                domain_text(self.item(), old(handle)@.mail_type),
            ),
    {
        proof {
            use_type_invariant(self);
        }
        handle.mark_fws_pos();
        match &self.0 {
            SimpleItem::Ascii(ascii) => {
                proof {
                    lemma_all_ascii_is_ascii_chars(ascii@);
                }
                match handle.write_str(ascii.as_str()) {
                    Ok(()) => {},
                    Err(e) => return Err(e),
                }
            },
            SimpleItem::Utf8(utf8) => {
                if handle.mail_type().is_internationalized() {
                    match handle.write_utf8(utf8.as_str()) {
                        Ok(()) => {},
                        Err(e) => return Err(e),
                    }
                } else {
                    let asciied = match puny_code_domain(utf8.as_str()) {
                        Ok(a) => a,
                        Err(e) => return Err(e),
                    };
                    proof {
                        lemma_all_ascii_is_ascii_chars(asciied@);
                    }
                    match handle.write_str(asciied.as_str()) {
                        Ok(()) => {},
                        Err(e) => return Err(e),
                    }
                }
            },
        }
        handle.mark_fws_pos();
        Ok(())
    }
}

impl Email {
    /// Writes the local part, `@` and the domain, stopping at the first
    /// error.
    pub fn encode(&self, handle: &mut EncodeHeaderHandle) -> (r: Result<(), EncodingError>)
        requires
            old(handle).wf(),
        ensures
            final(handle).wf(),
            (final(handle)@, r) == spec_email_encode(
                old(handle)@,
                self.local_part.0@,
                self.domain.item(),
            ),
    {
        proof {
            let v = old(handle)@;
            let t = local_part_text(self.local_part.0@, v.mail_type);
            if let Ok(text) = t {
                lemma_write_chars_keeps_mail_type(v.mark_fws().with_token(local_part_token(text)), text);
            }
        }
        match self.local_part.encode(handle) {
            Ok(()) => {},
            Err(e) => return Err(e),
        }
        match handle.write_char('@') {
            Ok(()) => {},
            Err(e) => return Err(e),
        }
        self.domain.encode(handle)
    }

    /// Splits `email` at its first `@` into local part and domain; fails
    /// with `Malformed` if there is no `@` or the domain is invalid.
    pub fn from_input(email: &str) -> (r: Result<Self, EncodingError>)
        ensures
            (forall|i: int| 0 <= i < email@.len() ==> email@[i] != '@') ==> r
                == Err::<Self, EncodingError>(EncodingError::Malformed),
            forall|k: int|
                0 <= k < email@.len() && email@[k] == '@' && (forall|i: int|
                    0 <= i < k ==> email@[i] != '@') ==> (if domain_ok(email@.skip(k + 1)) {
                    r matches Ok(e) && e.local_part.0@ == email@.take(k) && e.domain@ == email@.skip(
                        k + 1,
                    )
                } else {
                    r == Err::<Self, EncodingError>(EncodingError::Malformed)
                }),
    {
        let s = str_chars(email);
        let mut index: usize = 0;
        while index < s.len() && s[index] != '@'
            invariant
                s@ == email@,
                index <= s.len(),
                forall|i: int| 0 <= i < index ==> s@[i] != '@',
            decreases s.len() - index,
        {
            index = index + 1;
        }
        if index == s.len() {
            return Err(EncodingError::Malformed);
        }
        let left = email.substring_char(0, index);
        let right = email.substring_char(index + 1, s.len());
        let local_part = LocalPart::from_input(left);
        let domain = match Domain::from_input(right) {
            Ok(d) => d,
            Err(e) => return Err(e),
        };
        proof {
            assert forall|k: int|
                0 <= k < email@.len() && email@[k] == '@' && (forall|i: int|
                    0 <= i < k ==> email@[i] != '@') implies k == index by {
                if k < index {
                    assert(s@[k] != '@');
                }
                if k > index {
                    assert(email@[index as int] == '@');
                }
            }
            assert(left@ =~= email@.take(index as int));
            assert(right@ =~= email@.skip(index + 1));
        }
        Ok(Email { local_part, domain })
    }
}

} // verus!
