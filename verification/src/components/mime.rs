//! Media types (RFC 2045) and their parameters (RFC 2231).
use vstd::prelude::*;

use crate::codec::encoder::{EncodeHeaderHandle, TokenView};
use crate::codec::quoted_printable::{char_utf8_bytes, hex_digit, lower_nibble_to_hex};
use crate::codec::quoted_string::{quote_for, spec_quote_for};
use crate::error::EncodingError;
use crate::grammar::{
    MailType, all_ascii, is_token, is_token_char, lemma_all_ascii_is_ascii_chars, spec_is_token,
    spec_is_token_char,
};
use crate::utils::{str_chars, string_from_chars, string_push};
use vstd::string::StringExecFns;

verus! {

/// Declares the error of the `mime` crate's parsing.
#[verifier::external_type_specification]
#[verifier::external_body]
pub struct ExMimeFromStrError(mime::FromStrError);

/// The error of parsing a media type with the `mime` crate.
#[derive(Debug)]
pub struct MimeFromStrError(pub mime::FromStrError);

/// The text of the media type the `mime` crate parses from `s` (its
/// `Display`), or `None` if it refuses `s`.
pub uninterp spec fn mime_text(s: Seq<char>) -> Option<Seq<char>>;

/// Parses `s` with the `mime` crate (`FromStr for mime::Mime`) and gives
/// the text of the parsed media type (`Display`, which shows the text
/// the parser kept).
///
/// Trusted: the result is `mime_text` of `s`; what the text is, is not
/// stated here.
#[verifier::external_body]
fn parse_mime_text(s: &str) -> (r: Result<String, mime::FromStrError>)
    ensures
        match r {
            Ok(t) => mime_text(s@) == Some(t@),
            Err(_) => mime_text(s@) is None,
        },
{
    match s.parse::<mime::Mime>() {
        Ok(m) => Ok(m.to_string()),
        Err(e) => Err(e),
    }
}

/// A media type, e.g. `text/plain; charset=utf-8`, as the text the `mime`
/// crate parsed.
#[derive(Debug, Clone, PartialEq, Eq, Hash)]
pub struct Mime(String);

impl View for Mime {
    type V = Seq<char>;

    closed spec fn view(&self) -> Seq<char> {
        self.0@
    }
}

impl Mime {
    /// Parses `text` as a media type; fails with the `mime` crate's error
    /// if it refuses it.
    pub fn try_from(text: &str) -> (r: Result<Mime, MimeFromStrError>)
        ensures
            mime_text(text@) matches Some(t) ==> (r matches Ok(m) && m@ == t),
            mime_text(text@) is None ==> r is Err,
    {
        match parse_mime_text(text) {
            Ok(t) => Ok(Mime(t)),
            Err(e) => Err(MimeFromStrError(e)),
        }
    }

    /// The text of the media type.
    pub fn as_str(&self) -> (r: &str)
        ensures
            r@ == self@,
    {
        self.0.as_str()
    }

    /// Writes the media type into a header: as utf8 into an
    /// internationalized mail, as ascii into any other; fails with
    /// `Utf8InAsciiMail` if it is not ascii there.
    pub fn encode(&self, handle: &mut EncodeHeaderHandle) -> (r: Result<(), EncodingError>)
        requires
            old(handle).wf(),
        ensures
            final(handle).wf(),
            old(handle)@.mail_type == MailType::Internationalized ==> ({
                let (v, e) = old(handle)@.with_token(TokenView::NowUtf8).write_chars(self@);
                &&& final(handle)@ == v
                &&& e is None ==> r is Ok
                &&& e matches Some(err) ==> r == Err::<(), EncodingError>(err)
            }),
            old(handle)@.mail_type != MailType::Internationalized && all_ascii(self@) ==> ({
                let (v, e) = old(handle)@.with_token(TokenView::NowStr).write_chars(self@);
                &&& final(handle)@ == v
                &&& e is None ==> r is Ok
                &&& e matches Some(err) ==> r == Err::<(), EncodingError>(err)
            }),
            old(handle)@.mail_type != MailType::Internationalized && !all_ascii(self@) ==> r
                == Err::<(), EncodingError>(EncodingError::Utf8InAsciiMail) && final(handle)@ == old(
                handle,
            )@,
    {
        let text = self.0.as_str();
        proof {
            lemma_all_ascii_is_ascii_chars(text@);
        }
        if handle.mail_type().is_internationalized() {
            handle.write_utf8(text)
        } else if text.is_ascii() {
            handle.write_str(text)
        } else {
            Err(EncodingError::Utf8InAsciiMail)
        }
    }
}

/// attribute-char of RFC 2231: a token char but `*`, `'` and `%`.
pub open spec fn spec_is_attribute_char(c: char) -> bool {
    spec_is_token_char(c) && c != '*' && c != '\'' && c != '%'
}

/// A byte percent encoded: `%` and two upper case hex digits.
pub open spec fn percent_byte(b: u8) -> Seq<char> {
    seq!['%', hex_digit(b / 16), hex_digit(b % 16)]
}

/// Bytes percent encoded.
pub open spec fn percent_bytes(bs: Seq<u8>) -> Seq<char>
    decreases bs.len(),
{
    if bs.len() == 0 {
        Seq::empty()
    } else {
        percent_bytes(bs.drop_last()) + percent_byte(bs.last())
    }
}

/// A char of a parameter value as RFC 2231 writes it: an attribute char
/// as it is, any other as its percent encoded UTF-8 bytes.
pub open spec fn percent_char(c: char) -> Seq<char> {
    if spec_is_attribute_char(c) {
        seq![c]
    } else {
        percent_bytes(vstd::utf8::encode_scalar(c as u32))
    }
}

/// A parameter value percent encoded (RFC 2231).
pub open spec fn percent_encoded(s: Seq<char>) -> Seq<char>
    decreases s.len(),
{
    if s.len() == 0 {
        Seq::empty()
    } else {
        percent_encoded(s.drop_last()) + percent_char(s.last())
    }
}

/// All chars of `s` are token chars (`s` may be empty).
pub open spec fn all_token_chars(s: Seq<char>) -> bool {
    forall|i: int| 0 <= i < s.len() ==> #[trigger] spec_is_token_char(s[i])
}

/// How a parameter is written: `;name=value` with the value as it is if
/// all its chars are token chars, else quoted if that is possible in a
/// mail of type `mt`, else `;name*=utf8''` and the percent encoded value.
pub open spec fn spec_mime_param(name: Seq<char>, value: Seq<char>, mt: MailType) -> Seq<char> {
    if all_token_chars(value) {
        seq![';'] + name + seq!['='] + value
    } else {
        match spec_quote_for(value, mt) {
            Ok((_, q)) => seq![';'] + name + seq!['='] + q,
            Err(_) => seq![';'] + name + seq!['*', '=', 'u', 't', 'f', '8', '\'', '\'']
                + percent_encoded(value),
        }
    }
}

/// Whether all chars of `s` are token chars.
fn is_all_token_chars(s: &str) -> (r: bool)
    ensures
        r == all_token_chars(s@),
{
    let c = str_chars(s);
    let mut i: usize = 0;
    while i < c.len()
        invariant
            c@ == s@,
            i <= c.len(),
            forall|j: int| 0 <= j < i ==> #[trigger] spec_is_token_char(c@[j]),
        decreases c.len() - i,
    {
        if !is_token_char(c[i]) {
            return false;
        }
        i = i + 1;
    }
    true
}

/// Appends `c` to `out`.
fn push_char(out: &mut Vec<char>, c: char)
    ensures
        final(out)@ == old(out)@.push(c),
{
    out.push(c);
}

/// The value percent encoded (see `percent_encoded`).
pub fn percent_encode_param_value(value: &str) -> (r: String)
    ensures
        r@ == percent_encoded(value@),
{
    let c = str_chars(value);
    let mut out: Vec<char> = Vec::new();
    let mut i: usize = 0;
    while i < c.len()
        invariant
            c@ == value@,
            i <= c.len(),
            out@ == percent_encoded(c@.take(i as int)),
        decreases c.len() - i,
    {
        let ch = c[i];
        proof {
            assert(c@.take(i + 1).drop_last() =~= c@.take(i as int));
            assert(c@.take(i + 1).last() == ch);
        }
        if is_token_char(ch) && ch != '*' && ch != '\'' && ch != '%' {
            push_char(&mut out, ch);
        } else {
            let bytes = char_utf8_bytes(ch);
            let ghost before = out@;
            let mut k: usize = 0;
            while k < bytes.len()
                invariant
                    k <= bytes.len(),
                    out@ == before + percent_bytes(bytes@.take(k as int)),
                decreases bytes.len() - k,
            {
                let b = bytes[k];
                proof {
                    assert(bytes@.take(k + 1).drop_last() =~= bytes@.take(k as int));
                    assert(bytes@.take(k + 1).last() == b);
                }
                out.push('%');
                out.push(lower_nibble_to_hex(b / 16));
                out.push(lower_nibble_to_hex(b));
                proof {
                    assert((b / 16) % 16 == b / 16);
                    assert(out@ =~= before + percent_bytes(bytes@.take(k + 1)));
                }
                k = k + 1;
            }
            proof {
                assert(bytes@.take(k as int) =~= bytes@);
            }
        }
        i = i + 1;
    }
    proof {
        assert(c@.take(i as int) =~= c@);
    }
    string_from_chars(out.as_slice())
}

/// Checks that `s` is a token; fails with `NotAToken` otherwise.
fn assure_token(s: &str) -> (r: Result<&str, EncodingError>)
    ensures
        spec_is_token(s@) ==> r == Ok::<&str, EncodingError>(s),
        !spec_is_token(s@) ==> r == Err::<&str, EncodingError>(EncodingError::NotAToken),
{
    if !is_token(s) {
        return Err(EncodingError::NotAToken);
    }
    Ok(s)
}

/// Appends the parameter `name`=`value` to `buf` (see `spec_mime_param`);
/// fails with `NotAToken`, leaving `buf` as it was, if `name` is not a
/// token.
pub fn create_encoded_mime_parameter(name: &str, value: &str, buf: &mut String, mt: MailType) -> (r:
    Result<(), EncodingError>)
    ensures
        !spec_is_token(name@) ==> r == Err::<(), EncodingError>(EncodingError::NotAToken)
            && final(buf)@ == old(buf)@,
        spec_is_token(name@) ==> r is Ok && final(buf)@ == old(buf)@ + spec_mime_param(
            name@,
            value@,
            mt,
        ),
{
    let name = match assure_token(name) {
        Ok(n) => n,
        Err(e) => return Err(e),
    };
    let ghost b0 = buf@;
    if is_all_token_chars(value) {
        string_push(buf, ';');
        buf.append(name);
        string_push(buf, '=');
        buf.append(value);
        proof {
            assert(buf@ =~= b0 + spec_mime_param(name@, value@, mt));
        }
    } else {
        match quote_for(value, mt) {
            Ok((_, quoted)) => {
                string_push(buf, ';');
                buf.append(name);
                string_push(buf, '=');
                buf.append(quoted.as_str());
                proof {
                    assert(buf@ =~= b0 + spec_mime_param(name@, value@, mt));
                }
            },
            Err(_) => {
                let encoded = percent_encode_param_value(value);
                string_push(buf, ';');
                buf.append(name);
                string_push(buf, '*');
                string_push(buf, '=');
                buf.append("utf8''");
                buf.append(encoded.as_str());
                proof {
                    reveal_strlit("utf8''");
                    assert(buf@ =~= b0 + spec_mime_param(name@, value@, mt));
                }
            },
        }
    }
    Ok(())
}

/// Writing parameters one after the other: the text appended and the
/// result, stopping at the first name which is not a token.
pub open spec fn spec_mime_params(ps: Seq<(&str, &str)>, mt: MailType) -> (
    Seq<char>,
    Result<(), EncodingError>,
)
    decreases ps.len(),
{
    if ps.len() == 0 {
        (Seq::empty(), Ok(()))
    } else {
        let (t, r) = spec_mime_params(ps.drop_last(), mt);
        let (name, value) = ps.last();
        if r is Err {
            (t, r)
        } else if !spec_is_token(name@) {
            (t, Err(EncodingError::NotAToken))
        } else {
            (t + spec_mime_param(name@, value@, mt), Ok(()))
        }
    }
}

/// Once writing parameters failed, the later ones change nothing.
proof fn lemma_mime_params_stop(ps: Seq<(&str, &str)>, k: int, mt: MailType)
    requires
        0 <= k <= ps.len(),
        spec_mime_params(ps.take(k), mt).1 is Err,
    ensures
        spec_mime_params(ps, mt) == spec_mime_params(ps.take(k), mt),
    decreases ps.len(),
{
    if k < ps.len() {
        assert(ps.drop_last().take(k) =~= ps.take(k));
        lemma_mime_params_stop(ps.drop_last(), k, mt);
    } else {
        assert(ps.take(k) =~= ps);
    }
}

/// Appends the parameters to `buf` in their order (see
/// `create_encoded_mime_parameter`), stopping at the first error.
pub fn create_mime_parameters(params: &[(&str, &str)], buf: &mut String, mt: MailType) -> (r:
    Result<(), EncodingError>)
    ensures
        final(buf)@ == old(buf)@ + spec_mime_params(params@, mt).0,
        r == spec_mime_params(params@, mt).1,
{
    let ghost b0 = buf@;
    let mut i: usize = 0;
    while i < params.len()
        invariant
            i <= params.len(),
            b0 == old(buf)@,
            buf@ == b0 + spec_mime_params(params@.take(i as int), mt).0,
            spec_mime_params(params@.take(i as int), mt).1 == Ok::<(), EncodingError>(()),
        decreases params.len() - i,
    {
        proof {
            assert(params@.take(i + 1).drop_last() =~= params@.take(i as int));
            assert(params@.take(i + 1).last() == params@[i as int]);
        }
        let (name, value) = params[i];
        match create_encoded_mime_parameter(name, value, buf, mt) {
            Ok(()) => {},
            Err(e) => {
                proof {
                    let ps1 = params@.take(i + 1);
                    assert(!spec_is_token(ps1.last().0@));
                    assert(spec_mime_params(ps1, mt) == (
                        spec_mime_params(params@.take(i as int), mt).0,
                        Err::<(), EncodingError>(EncodingError::NotAToken),
                    ));
                    lemma_mime_params_stop(params@, i + 1, mt);
                }
                return Err(e);
            },
        }
        proof {
            assert(buf@ =~= b0 + spec_mime_params(params@.take(i + 1), mt).0);
        }
        i = i + 1;
    }
    proof {
        assert(params@.take(i as int) =~= params@);
    }
    Ok(())
}

/// The text a media type is made from: `type/subtype` and the
/// parameters, or the first error.
pub open spec fn spec_mime_source(ty: Seq<char>, subtype: Seq<char>, ps: Seq<(&str, &str)>, mt: MailType) -> Result<
    Seq<char>,
    EncodingError,
> {
    if !spec_is_token(ty) || !spec_is_token(subtype) {
        Err(EncodingError::NotAToken)
    } else {
        match spec_mime_params(ps, mt) {
            (t, Ok(_)) => Ok(ty + seq!['/'] + subtype + t),
            (_, Err(e)) => Err(e),
        }
    }
}

/// Creates the media type `ty/subtype` with the given parameters (see
/// `create_mime_parameters`). Fails with `NotAToken` if the type, the
/// subtype or a parameter name is not a token, and with `InvalidMime` if
/// the `mime` crate refuses the text.
pub fn create_mime(ty: &str, subtype: &str, params: &[(&str, &str)], mt: MailType) -> (r: Result<
    Mime,
    EncodingError,
>)
    ensures
        match spec_mime_source(ty@, subtype@, params@, mt) {
            Err(e) => r == Err::<Mime, EncodingError>(e),
            Ok(text) => match mime_text(text) {
                Some(t) => r matches Ok(m) && m@ == t,
                None => r == Err::<Mime, EncodingError>(EncodingError::InvalidMime),
            },
        },
{
    let ty = match assure_token(ty) {
        Ok(t) => t,
        Err(e) => return Err(e),
    };
    let subtype = match assure_token(subtype) {
        Ok(t) => t,
        Err(e) => return Err(e),
    };
    let mut text = string_from_chars(str_chars(ty).as_slice());
    string_push(&mut text, '/');
    text.append(subtype);
    match create_mime_parameters(params, &mut text, mt) {
        Ok(()) => {},
        Err(e) => return Err(e),
    }
    proof {
        assert(text@ =~= ty@ + seq!['/'] + subtype@ + spec_mime_params(params@, mt).0);
    }
    match Mime::try_from(text.as_str()) {
        Ok(m) => Ok(m),
        Err(_) => Err(EncodingError::InvalidMime),
    }
}

} // verus!
