//! Quoting where every non-qtext char is escaped, and unquoting.
use vstd::prelude::*;

use crate::codec::quoted_string::prepend;
use crate::error::EncodingError;
use crate::grammar::{
    MailType, all_ascii, is_qtext, is_vchar, is_ws, spec_is_ascii, spec_is_qtext, spec_is_vchar,
    spec_is_ws, spec_is_quoted_string, quoted_body_ok, spec_is_quotable,
};
use crate::utils::{str_chars, string_from_chars};

verus! {

/// A quoted string, either of ascii chars only or of any utf8 chars.
#[derive(Debug, Clone, Hash, PartialEq, Eq)]
pub enum Quoted {
    Ascii(String),
    Utf8(String),
}

impl View for Quoted {
    type V = Seq<char>;

    open spec fn view(&self) -> Seq<char> {
        match self {
            Quoted::Ascii(s) => s@,
            Quoted::Utf8(s) => s@,
        }
    }
}

impl Quoted {
    /// The `Ascii` variant holds ascii chars only.
    pub open spec fn wf(&self) -> bool {
        self is Ascii ==> all_ascii(self@)
    }

    /// The quoted string as a `String`.
    pub fn into_string(self) -> (r: String)
        ensures
            r@ == self@,
    {
        match self {
            Quoted::Ascii(s) => s,
            Quoted::Utf8(s) => s,
        }
    }

    /// The quoted string as a `&str`.
    pub fn as_str(&self) -> (r: &str)
        ensures
            r@ == self@,
    {
        match self {
            Quoted::Ascii(s) => s.as_str(),
            Quoted::Utf8(s) => s.as_str(),
        }
    }
}

/// Prepends `p` to a present result.
pub open spec fn prepend_opt(p: Seq<char>, r: Option<Seq<char>>) -> Option<Seq<char>> {
    match r {
        Some(t) => Some(p + t),
        None => None,
    }
}

/// The content of a quoted string after its opening `"`: a `\` takes the
/// next char as it is, a `"` ends the string and must be the last char.
/// `None` if `s` is not of that form.
pub open spec fn unquote_body(s: Seq<char>) -> Option<Seq<char>>
    decreases s.len(),
{
    if s.len() == 0 {
        None
    } else if s[0] == '\\' {
        if s.len() >= 2 {
            prepend_opt(seq![s[1]], unquote_body(s.skip(2)))
        } else {
            None
        }
    } else if s[0] == '"' {
        if s.len() == 1 {
            Some(Seq::empty())
        } else {
            None
        }
    } else {
        prepend_opt(seq![s[0]], unquote_body(s.skip(1)))
    }
}

/// The content of the quoted string `s`, `None` if `s` is not one.
pub open spec fn spec_unquote(s: Seq<char>) -> Option<Seq<char>> {
    if s.len() > 0 && s[0] == '"' {
        unquote_body(s.skip(1))
    } else {
        None
    }
}

/// The chars of `s` written for a quoted string, followed by the closing
/// `"`: qtext as it is, other visible chars and whitespace behind a `\`;
/// the first char which is neither is an error.
pub open spec fn escape_all(s: Seq<char>) -> Result<Seq<char>, EncodingError>
    decreases s.len(),
{
    if s.len() == 0 {
        Ok(seq!['"'])
    } else if spec_is_qtext(s[0], MailType::Internationalized) {
        prepend(seq![s[0]], escape_all(s.skip(1)))
    } else if spec_is_vchar(s[0], MailType::Internationalized) || spec_is_ws(s[0]) {
        prepend(seq!['\\', s[0]], escape_all(s.skip(1)))
    } else {
        Err(EncodingError::NotQuotable(s[0]))
    }
}

/// Quotes `input`, escaping every char which is not qtext.
///
/// The result is `Ascii` if `input` is ascii. Fails on the first char
/// which can not be quoted (the controls but `'\t'`, and DEL).
pub fn quote(input: &str) -> (r: Result<Quoted, EncodingError>)
    ensures
        match escape_all(input@) {
            Ok(t) => r matches Ok(q) && q@ == seq!['"'] + t && (q is Ascii <==> all_ascii(input@))
                && q.wf(),
            Err(e) => r == Err::<Quoted, EncodingError>(e),
        },
{
    let chars = str_chars(input);
    let ghost s = input@;
    let mut is_ascii = true;
    let mut out: Vec<char> = Vec::new();
    out.push('"');
    let mut i: usize = 0;
    proof {
        assert(s.skip(0) =~= s);
        assert(s.take(0) =~= Seq::<char>::empty());
    }
    while i < chars.len()
        invariant
            chars@ == s,
            s == input@,
            i <= chars.len(),
            is_ascii == all_ascii(s.take(i as int)),
            out@.len() > 0,
            out@[0] == '"',
            is_ascii ==> all_ascii(out@),
            prepend(seq!['"'], escape_all(s)) == prepend(out@, escape_all(s.skip(i as int))),
        decreases chars.len() - i,
    {
        let ch = chars[i];
        proof {
            assert(s.skip(i as int)[0] == ch);
            assert(s.skip(i as int).skip(1) =~= s.skip(i + 1));
        }
        if is_ascii {
            is_ascii = (ch as u32) < 128;
        }
        let ghost before = out@;
        if is_qtext(ch, MailType::Internationalized) {
            out.push(ch);
            proof {
                assert(out@ =~= before + seq![ch]);
                crate::codec::quoted_string::lemma_prepend_assoc(
                    before,
                    seq![ch],
                    escape_all(s.skip(i + 1)),
                );
            }
        } else {
            if is_vchar(ch, MailType::Internationalized) || is_ws(ch) {
                out.push('\\');
                out.push(ch);
                proof {
                    assert(out@ =~= before + seq!['\\', ch]);
                    crate::codec::quoted_string::lemma_prepend_assoc(
                        before,
                        seq!['\\', ch],
                        escape_all(s.skip(i + 1)),
                    );
                }
            } else {
                proof {
                    assert(escape_all(s.skip(i as int)) == Err::<Seq<char>, EncodingError>(
                        EncodingError::NotQuotable(ch),
                    ));
                    assert(escape_all(s) == Err::<Seq<char>, EncodingError>(
                        EncodingError::NotQuotable(ch),
                    ));
                }
                return Err(EncodingError::NotQuotable(ch));
            }
        }
        proof {
            assert(s.take(i + 1) =~= s.take(i as int).push(ch));
            crate::grammar::lemma_all_ascii_push(s.take(i as int), ch);
            assert(is_ascii ==> all_ascii(out@)) by {
                if is_ascii {
                    assert forall|j: int| 0 <= j < out@.len() implies #[trigger] spec_is_ascii(
                        out@[j],
                    ) by {
                        if j >= before.len() {
                            assert(out@[j] == ch || out@[j] == '\\');
                        } else {
                            assert(out@[j] == before[j]);
                        }
                    }
                }
            }
        }
        i = i + 1;
    }
    let ghost before = out@;
    out.push('"');
    proof {
        assert(out@ =~= before + seq!['"']);
        assert(s.skip(i as int).len() == 0);
        assert(s.take(i as int) =~= s);
        assert(is_ascii ==> all_ascii(out@)) by {
            if is_ascii {
                assert forall|j: int| 0 <= j < out@.len() implies #[trigger] spec_is_ascii(
                    out@[j],
                ) by {
                    if j < before.len() {
                        assert(out@[j] == before[j]);
                    }
                }
            }
        }
    }
    let quoted = string_from_chars(out.as_slice());
    if is_ascii {
        Ok(Quoted::Ascii(quoted))
    } else {
        Ok(Quoted::Utf8(quoted))
    }
}

/// The content of the quoted string `quoted`.
pub(crate) fn unquote_str(quoted: &str) -> (r: String)
    requires
        spec_unquote(quoted@) is Some,
    ensures
        r@ == spec_unquote(quoted@)->0,
{
    let s = str_chars(quoted);
    let mut out: Vec<char> = Vec::new();
    let mut i: usize = 1;
    proof {
        assert(prepend_opt(Seq::empty(), unquote_body(s@.skip(1))) =~= unquote_body(s@.skip(1)))
            by {
            if unquote_body(s@.skip(1)) is Some {
                assert(Seq::<char>::empty() + unquote_body(s@.skip(1))->0 =~= unquote_body(
                    s@.skip(1),
                )->0);
            }
        }
    }
    loop
        invariant
            s@ == quoted@,
            1 <= i <= s.len(),
            unquote_body(s@.skip(i as int)) is Some,
            spec_unquote(s@) == prepend_opt(out@, unquote_body(s@.skip(i as int))),
        ensures
            spec_unquote(s@) == Some(out@),
        decreases s.len() - i,
    {
        let ghost rest = s@.skip(i as int);
        proof {
            assert(rest.len() > 0);
            assert(rest[0] == s@[i as int]);
        }
        let ch = s[i];
        let ghost before = out@;
        if ch == '\\' {
            proof {
                assert(rest.len() >= 2);
                assert(rest[1] == s@[i + 1]);
                assert(rest.skip(2) =~= s@.skip(i + 2));
            }
            out.push(s[i + 1]);
            proof {
                assert(out@ =~= before + seq![s@[i + 1]]);
                lemma_prepend_opt_assoc(before, seq![s@[i + 1]], unquote_body(s@.skip(i + 2)));
            }
            i = i + 2;
        } else if ch == '"' {
            proof {
                assert(rest.len() == 1);
                assert(before + Seq::<char>::empty() =~= before);
            }
            break;
        } else {
            proof {
                assert(rest.skip(1) =~= s@.skip(i + 1));
            }
            out.push(ch);
            proof {
                assert(out@ =~= before + seq![ch]);
                lemma_prepend_opt_assoc(before, seq![ch], unquote_body(s@.skip(i + 1)));
            }
            i = i + 1;
        }
    }
    string_from_chars(out.as_slice())
}

/// Unquotes a quoted string: drops the enclosing `"` and the `\` of every
/// escaped char.
///
/// # Panics
/// if `quoted` is not a quoted string (excluded by the precondition)
pub fn unquote(quoted: &Quoted) -> (r: String)
    requires
        spec_unquote(quoted@) is Some,
    ensures
        r@ == spec_unquote(quoted@)->0,
{
    unquote_str(quoted.as_str())
}

proof fn lemma_prepend_opt_assoc(p: Seq<char>, q: Seq<char>, r: Option<Seq<char>>)
    ensures
        prepend_opt(p, prepend_opt(q, r)) == prepend_opt(p + q, r),
{
    match r {
        Some(t) => {
            assert(p + (q + t) =~= (p + q) + t);
        },
        None => {},
    }
}

/// Unquoting a string quoted by `quote` gives back the input.
pub proof fn lemma_unquote_quote(s: Seq<char>)
    requires
        escape_all(s) is Ok,
    ensures
        spec_unquote(seq!['"'] + escape_all(s)->Ok_0) == Some(s),
{
    let q = seq!['"'] + escape_all(s)->Ok_0;
    assert(q.skip(1) =~= escape_all(s)->Ok_0);
    lemma_unquote_body_escape_all(s);
}

proof fn lemma_unquote_body_escape_all(s: Seq<char>)
    requires
        escape_all(s) is Ok,
    ensures
        unquote_body(escape_all(s)->Ok_0) == Some(s),
    decreases s.len(),
{
    let t = escape_all(s)->Ok_0;
    if s.len() == 0 {
        assert(t =~= seq!['"']);
    } else {
        let c = s[0];
        let rest = s.skip(1);
        lemma_unquote_body_escape_all(rest);
        let t2 = escape_all(rest)->Ok_0;
        if spec_is_qtext(c, MailType::Internationalized) {
            assert(t =~= seq![c] + t2);
            assert(t.skip(1) =~= t2);
            assert(seq![c] + rest =~= s);
        } else {
            assert(t =~= seq!['\\', c] + t2);
            assert(t.skip(2) =~= t2);
            assert(seq![c] + rest =~= s);
        }
    }
}

/// What `quote` produces is a quoted string (RFC 5322 / RFC 6532).
pub proof fn lemma_quote_is_quoted_string(s: Seq<char>)
    requires
        escape_all(s) is Ok,
    ensures
        spec_is_quoted_string(seq!['"'] + escape_all(s)->Ok_0, MailType::Internationalized),
{
    let q = seq!['"'] + escape_all(s)->Ok_0;
    assert(q.skip(1) =~= escape_all(s)->Ok_0);
    lemma_quoted_body_escape_all(s, q, 1);
}

proof fn lemma_quoted_body_escape_all(s: Seq<char>, q: Seq<char>, i: int)
    requires
        escape_all(s) is Ok,
        0 <= i <= q.len(),
        q.skip(i) == escape_all(s)->Ok_0,
    ensures
        quoted_body_ok(q, i, MailType::Internationalized),
    decreases s.len(),
{
    let t = escape_all(s)->Ok_0;
    if s.len() == 0 {
        assert(q.skip(i) =~= seq!['"']);
        assert(q.skip(i)[0] == q[i]);
        assert(q[i] == '"');
    } else {
        let c = s[0];
        let rest = s.skip(1);
        let t2 = escape_all(rest)->Ok_0;
        if spec_is_qtext(c, MailType::Internationalized) {
            assert(t =~= seq![c] + t2);
            assert(q.skip(i)[0] == q[i]);
            assert(q[i] == c);
            assert(q.skip(i + 1) =~= q.skip(i).skip(1));
            assert(t.skip(1) =~= t2);
            lemma_quoted_body_escape_all(rest, q, i + 1);
        } else {
            assert(t =~= seq!['\\', c] + t2);
            assert(q.skip(i)[0] == q[i]);
            assert(q.skip(i)[1] == q[i + 1]);
            assert(q[i] == '\\');
            assert(q[i + 1] == c);
            assert(spec_is_quotable(c, MailType::Internationalized));
            assert(q.skip(i + 2) =~= q.skip(i).skip(2));
            assert(t.skip(2) =~= t2);
            lemma_quoted_body_escape_all(rest, q, i + 2);
        }
    }
}

} // verus!
