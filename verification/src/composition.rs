//! The content type of a multipart body with a random boundary.
use rand::Rng;
use vstd::prelude::*;

use crate::components::mime::{Mime, MimeFromStrError, mime_text};
use crate::utils::{str_chars, string_from_chars};

verus! {

/// The number of random chars of a multipart boundary.
pub const MULTIPART_BOUNDARY_LENGTH: usize = 30;

/// The number of chars a boundary char is picked from.
pub const BOUNDARY_CHAR_COUNT: usize = 91;

/// A char of a generated boundary: a visible ascii char other than `"`,
/// `-` and `\`.
pub open spec fn is_boundary_char(c: char) -> bool {
    33 <= (c as u32) <= 126 && c != '"' && c != '-' && c != '\\'
}

/// The text before the random part of the content type.
pub open spec fn multipart_prefix(subtype: Seq<char>) -> Seq<char> {
    "multipart/"@ + subtype + "; boundary=\"=_^"@
}

/// The code of the `i`-th boundary char in ascending order: the visible
/// ascii chars from `!` on, skipping `"`, `-` and `\`.
pub open spec fn boundary_code(i: int) -> int {
    if i == 0 {
        33
    } else if i <= 10 {
        34 + i
    } else if i <= 56 {
        35 + i
    } else {
        36 + i
    }
}

/// The `i`-th boundary char, in ascending order.
fn boundary_char(i: usize) -> (r: char)
    requires
        i < BOUNDARY_CHAR_COUNT,
    ensures
        is_boundary_char(r),
        r as u32 == boundary_code(i as int),
{
    let mut code: u8 = 33 + i as u8;
    if code >= 34 {
        code = code + 1;
    }
    if code >= 45 {
        code = code + 1;
    }
    if code >= 92 {
        code = code + 1;
    }
    code as char
}

/// A random number below `n` (rand's `gen_range` with the thread local
/// generator).
///
/// Trusted: the contract states only what holds of every outcome, the
/// range rand documents for `gen_range(0..n)`.
#[verifier::external_body]
fn random_below(n: usize) -> (r: usize)
    requires
        n > 0,
    ensures
        r < n,
{
    rand::thread_rng().gen_range(0..n)
}

/// A text of the content type `multipart/<subtype>` with a boundary
/// parameter (see `is_multipart_text`).
pub open spec fn is_multipart_text(subtype: Seq<char>, r: Seq<char>) -> bool {
    &&& r.len() == multipart_prefix(subtype).len() + MULTIPART_BOUNDARY_LENGTH + 1
    &&& r.take(multipart_prefix(subtype).len() as int) == multipart_prefix(subtype)
    &&& forall|i: int|
        multipart_prefix(subtype).len() <= i < multipart_prefix(subtype).len()
            + MULTIPART_BOUNDARY_LENGTH ==> is_boundary_char(#[trigger] r[i])
    &&& r.last() == '"'
}

/// The content type `multipart/<subtype>` with a boundary parameter, as
/// text: `=_^` (which is valid neither in base64 nor in quoted-printable)
/// followed by `MULTIPART_BOUNDARY_LENGTH` random boundary chars, in
/// quotes.
pub fn gen_multipart_text(subtype: &str) -> (r: String)
    ensures
        is_multipart_text(subtype@, r@),
{
    let head = "multipart/";
    let tail = "; boundary=\"=_^";
    proof {
        reveal_strlit("multipart/");
        reveal_strlit("; boundary=\"=_^");
    }
    let mut out = str_chars(head);
    let sub = str_chars(subtype);
    let t = str_chars(tail);
    let mut i: usize = 0;
    while i < sub.len()
        invariant
            i <= sub.len(),
            sub@ == subtype@,
            out@ == "multipart/"@ + sub@.take(i as int),
        decreases sub.len() - i,
    {
        out.push(sub[i]);
        proof {
            assert(sub@.take(i + 1) =~= sub@.take(i as int).push(sub@[i as int]));
        }
        i = i + 1;
    }
    let mut j: usize = 0;
    while j < t.len()
        invariant
            j <= t.len(),
            t@ == "; boundary=\"=_^"@,
            out@ == "multipart/"@ + subtype@ + t@.take(j as int),
        decreases t.len() - j,
    {
        out.push(t[j]);
        proof {
            assert(t@.take(j + 1) =~= t@.take(j as int).push(t@[j as int]));
        }
        j = j + 1;
    }
    let ghost prefix = multipart_prefix(subtype@);
    proof {
        assert(sub@.take(i as int) =~= sub@);
        assert(t@.take(j as int) =~= t@);
        assert(out@ =~= prefix);
    }
    let mut k: usize = 0;
    while k < MULTIPART_BOUNDARY_LENGTH
        invariant
            k <= MULTIPART_BOUNDARY_LENGTH,
            out@.len() == prefix.len() + k,
            out@.take(prefix.len() as int) == prefix,
            forall|n: int| prefix.len() <= n < prefix.len() + k ==> is_boundary_char(#[trigger] out@[n]),
        decreases MULTIPART_BOUNDARY_LENGTH - k,
    {
        let c = boundary_char(random_below(BOUNDARY_CHAR_COUNT));
        let ghost before = out@;
        out.push(c);
        proof {
            assert(out@.take(prefix.len() as int) =~= before.take(prefix.len() as int));
        }
        k = k + 1;
    }
    let ghost before = out@;
    out.push('"');
    proof {
        assert(out@.take(prefix.len() as int) =~= before.take(prefix.len() as int));
    }
    string_from_chars(out.as_slice())
}

/// The media type `multipart/<subtype>` with a random boundary (see
/// `gen_multipart_text`), parsed by the `mime` crate; fails with its
/// error if the subtype makes the text invalid.
pub fn gen_multipart_mime(subtype: &str) -> (r: Result<Mime, MimeFromStrError>)
    ensures
        exists|g: Seq<char>|
            is_multipart_text(subtype@, g) && match mime_text(g) {
                Some(t) => r matches Ok(m) && m@ == t,
                None => r is Err,
            },
{
    let text = gen_multipart_text(subtype);
    let r = Mime::try_from(text.as_str());
    assert(is_multipart_text(subtype@, text@));
    r
}

} // verus!
