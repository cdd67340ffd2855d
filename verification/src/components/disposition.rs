//! Content dispositions (RFC 2183): their kind and file parameters.
use vstd::prelude::*;

use crate::codec::encoder::{EncodeHeaderHandle, HeaderView, TokenView, then_write};
use crate::components::mime::{create_encoded_mime_parameter, spec_mime_param};
use crate::error::EncodingError;
use crate::grammar::{MailType, spec_is_token};
use crate::utils::str_chars;

verus! {

/// Whether a body is shown inline or is an attachment.
#[derive(Debug, Copy, Clone, Eq, PartialEq, Hash, Structural)]
pub enum DispositionKind {
    Inline,
    Attachment,
}

/// The name a disposition kind is written as.
pub open spec fn kind_name(k: DispositionKind) -> Seq<char> {
    match k {
        DispositionKind::Inline => "inline"@,
        DispositionKind::Attachment => "attachment"@,
    }
}

/// The lower case form of an ascii letter, any other char as it is.
pub open spec fn ascii_lower(c: char) -> char {
    if 'A' <= c <= 'Z' {
        ((c as u32) + 32) as char
    } else {
        c
    }
}

/// `a` and `b` are equal ignoring the case of ascii letters.
pub open spec fn eq_ignore_ascii_case(a: Seq<char>, b: Seq<char>) -> bool {
    a.len() == b.len() && forall|i: int| 0 <= i < a.len() ==> ascii_lower(#[trigger] a[i])
        == ascii_lower(b[i])
}

fn to_ascii_lower(c: char) -> (r: char)
    ensures
        r == ascii_lower(c),
{
    if 'A' <= c && c <= 'Z' {
        proof {
            crate::grammar::lemma_char_code(c);
        }
        ((c as u32) + 32) as u8 as char
    } else {
        c
    }
}

fn str_eq_ignore_ascii_case(a: &str, b: &str) -> (r: bool)
    ensures
        r == eq_ignore_ascii_case(a@, b@),
{
    let x = str_chars(a);
    let y = str_chars(b);
    if x.len() != y.len() {
        return false;
    }
    let mut i: usize = 0;
    while i < x.len()
        invariant
            x@ == a@,
            y@ == b@,
            x.len() == y.len(),
            i <= x.len(),
            forall|j: int| 0 <= j < i ==> ascii_lower(#[trigger] x@[j]) == ascii_lower(y@[j]),
        decreases x.len() - i,
    {
        if to_ascii_lower(x[i]) != to_ascii_lower(y[i]) {
            return false;
        }
        i = i + 1;
    }
    true
}

/// The file parameters of a content disposition. The dates are held as
/// their RFC 2822 text.
#[derive(Debug, Clone, Default, Eq, PartialEq, Hash)]
pub struct FileMeta {
    pub file_name: Option<String>,
    pub creation_date: Option<String>,
    pub modification_date: Option<String>,
    pub read_date: Option<String>,
    pub size: Option<usize>,
}

/// The text of an optional string.
pub open spec fn opt_text(o: Option<String>) -> Option<Seq<char>> {
    match o {
        Some(s) => Some(s@),
        None => None,
    }
}

/// The parameter `name` for an optional value: nothing where there is no
/// value.
pub open spec fn opt_param(name: Seq<char>, value: Option<Seq<char>>, mt: MailType) -> Seq<char> {
    match value {
        Some(v) => spec_mime_param(name, v, mt),
        None => Seq::empty(),
    }
}

/// The decimal digit of `d` (`d < 10`).
pub open spec fn digit(d: nat) -> char {
    ((48 + d) as u8) as char
}

/// The decimal text of `n`.
pub open spec fn decimal(n: nat) -> Seq<char>
    decreases n,
{
    if n < 10 {
        seq![digit(n)]
    } else {
        decimal(n / 10).push(digit(n % 10))
    }
}

/// The parameters of the file meta data, in this order: `filename`,
/// `creation-date`, `modification-date`, `read-date` and `size`, each
/// only where it is set.
pub open spec fn spec_file_params(m: FileMeta, mt: MailType) -> Seq<char> {
    opt_param("filename"@, opt_text(m.file_name), mt) + opt_param(
        "creation-date"@,
        opt_text(m.creation_date),
        mt,
    ) + opt_param("modification-date"@, opt_text(m.modification_date), mt) + opt_param(
        "read-date"@,
        opt_text(m.read_date),
        mt,
    ) + match m.size {
        Some(n) => spec_mime_param("size"@, decimal(n as nat), mt),
        None => Seq::empty(),
    }
}

/// Appends the decimal text of `n` to `out`.
fn push_decimal(n: usize, out: &mut Vec<char>)
    ensures
        final(out)@ == old(out)@ + decimal(n as nat),
    decreases n,
{
    if n >= 10 {
        push_decimal(n / 10, out);
    }
    let d: u8 = (n % 10) as u8;
    out.push((48 + d) as char);
    proof {
        assert(decimal(n as nat) == if n < 10 {
            seq![digit(n as nat)]
        } else {
            decimal((n / 10) as nat).push(digit((n % 10) as nat))
        });
    }
}

/// Appends the parameter `name` for an optional value to `out`; `name`
/// must be a token.
fn push_opt_param(name: &str, value: &Option<String>, out: &mut String, mt: MailType)
    requires
        spec_is_token(name@),
    ensures
        final(out)@ == old(out)@ + opt_param(name@, opt_text(*value), mt),
{
    match value {
        Some(v) => {
            let _ = create_encoded_mime_parameter(name, v.as_str(), out, mt);
        },
        None => {
            proof {
                assert(old(out)@ + Seq::<char>::empty() =~= old(out)@);
            }
        },
    }
}

impl FileMeta {
    /// The parameters of the file meta data (see `spec_file_params`).
    pub fn params(&self, mt: MailType) -> (r: String)
        ensures
            r@ == spec_file_params(*self, mt),
    {
        let mut out = String::new();
        proof {
            reveal_strlit("filename");
            reveal_strlit("creation-date");
            reveal_strlit("modification-date");
            reveal_strlit("read-date");
            reveal_strlit("size");
        }
        push_opt_param("filename", &self.file_name, &mut out, mt);
        push_opt_param("creation-date", &self.creation_date, &mut out, mt);
        push_opt_param("modification-date", &self.modification_date, &mut out, mt);
        push_opt_param("read-date", &self.read_date, &mut out, mt);
        let ghost before = out@;
        match self.size {
            Some(n) => {
                let mut digits: Vec<char> = Vec::new();
                push_decimal(n, &mut digits);
                let text = crate::utils::string_from_chars(digits.as_slice());
                proof {
                    assert(digits@ =~= decimal(n as nat));
                }
                let _ = create_encoded_mime_parameter("size", text.as_str(), &mut out, mt);
            },
            None => {},
        }
        proof {
            assert(out@ =~= spec_file_params(*self, mt));
        }
        out
    }
}

/// A content disposition: its kind and file parameters.
#[derive(Debug, Clone, Eq, PartialEq, Hash)]
pub struct Disposition {
    kind: DispositionKind,
    file_meta: FileMeta,
}

impl Disposition {
    pub closed spec fn spec_kind(&self) -> DispositionKind {
        self.kind
    }

    pub closed spec fn spec_file_meta(&self) -> FileMeta {
        self.file_meta
    }

    /// An inline disposition without file parameters.
    pub fn inline() -> (r: Self)
        ensures
            r.spec_kind() == DispositionKind::Inline,
            r.spec_file_meta() == (FileMeta {
                file_name: None,
                creation_date: None,
                modification_date: None,
                read_date: None,
                size: None,
            }),
    {
        Disposition::new(DispositionKind::Inline, FileMeta {
            file_name: None,
            creation_date: None,
            modification_date: None,
            read_date: None,
            size: None,
        })
    }

    /// An attachment disposition without file parameters.
    pub fn attachment() -> (r: Self)
        ensures
            r.spec_kind() == DispositionKind::Attachment,
            r.spec_file_meta() == (FileMeta {
                file_name: None,
                creation_date: None,
                modification_date: None,
                read_date: None,
                size: None,
            }),
    {
        Disposition::new(DispositionKind::Attachment, FileMeta {
            file_name: None,
            creation_date: None,
            modification_date: None,
            read_date: None,
            size: None,
        })
    }

    /// A disposition of the given kind and file parameters.
    pub fn new(kind: DispositionKind, file_meta: FileMeta) -> (r: Self)
        ensures
            r.spec_kind() == kind,
            r.spec_file_meta() == file_meta,
    {
        Disposition { kind, file_meta }
    }

    pub fn kind(&self) -> (r: DispositionKind)
        ensures
            r == self.spec_kind(),
    {
        self.kind
    }

    /// The file parameters.
    pub fn file_meta(&self) -> (r: &FileMeta)
        ensures
            *r == self.spec_file_meta(),
    {
        &self.file_meta
    }

    /// The file parameters, to change them.
    pub fn file_meta_mut(&mut self) -> (r: &mut FileMeta)
        ensures
            *r == old(self).spec_file_meta(),
            final(self).spec_kind() == old(self).spec_kind(),
            final(self).spec_file_meta() == *final(r),
    {
        &mut self.file_meta
    }

    /// `inline` or `attachment`, in any letter case; fails with
    /// `Malformed` for anything else.
    pub fn try_from(text: &str) -> (r: Result<Self, EncodingError>)
        ensures
            eq_ignore_ascii_case(text@, seq!['i', 'n', 'l', 'i', 'n', 'e']) ==> (r matches Ok(d)
                && d.spec_kind() == DispositionKind::Inline),
            eq_ignore_ascii_case(text@, seq!['a', 't', 't', 'a', 'c', 'h', 'm', 'e', 'n', 't'])
                ==> (r matches Ok(d) && d.spec_kind() == DispositionKind::Attachment),
            !eq_ignore_ascii_case(text@, seq!['i', 'n', 'l', 'i', 'n', 'e'])
                && !eq_ignore_ascii_case(text@, seq!['a', 't', 't', 'a', 'c', 'h', 'm', 'e', 'n', 't'])
                ==> r == Err::<Self, EncodingError>(EncodingError::Malformed),
    {
        let inline = "Inline";
        let attachment = "Attachment";
        proof {
            reveal_strlit("Inline");
            reveal_strlit("Attachment");
            assert forall|s: Seq<char>| eq_ignore_ascii_case(s, inline@) <==> eq_ignore_ascii_case(
                s,
                seq!['i', 'n', 'l', 'i', 'n', 'e'],
            ) by {
                if s.len() == 6 {
                    assert(ascii_lower('I') == 'i');
                }
            }
            assert forall|s: Seq<char>| eq_ignore_ascii_case(s, attachment@) <==> eq_ignore_ascii_case(
                s,
                seq!['a', 't', 't', 'a', 'c', 'h', 'm', 'e', 'n', 't'],
            ) by {
                if s.len() == 10 {
                    assert(ascii_lower('A') == 'a');
                }
            }
        }
        if str_eq_ignore_ascii_case(text, inline) {
            Ok(Disposition::inline())
        } else if str_eq_ignore_ascii_case(text, attachment) {
            Ok(Disposition::attachment())
        } else {
            Err(EncodingError::Malformed)
        }
    }

    /// Writes `inline` or `attachment`, then the file parameters (see
    /// `FileMeta::params`) as they are.
    pub fn encode(&self, handle: &mut EncodeHeaderHandle) -> (r: Result<(), EncodingError>)
        requires
            old(handle).wf(),
        ensures
            final(handle).wf(),
            (final(handle)@, r) == then_write(
                old(handle)@.write_with(TokenView::NowStr, kind_name(self.spec_kind())),
                |v: HeaderView|
                    v.write_with(
                        TokenView::NowUnchecked,
                        spec_file_params(self.spec_file_meta(), old(handle)@.mail_type),
                    ),
            ),
    {
        let mt = handle.mail_type();
        let params = self.file_meta.params(mt);
        let name = match self.kind {
            DispositionKind::Inline => "inline",
            DispositionKind::Attachment => "attachment",
        };
        proof {
            reveal_strlit("inline");
            reveal_strlit("attachment");
        }
        let r = handle.write_str(name);
        proof {
            crate::error::lemma_unit_ok(r);
        }
        match r {
            Ok(()) => {},
            Err(e) => return Err(e),
        }
        let r2 = handle.write_str_unchecked(params.as_str());
        proof {
            crate::error::lemma_unit_ok(r2);
        }
        r2
    }
}

} // verus!
