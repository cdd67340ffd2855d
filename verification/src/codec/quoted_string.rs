//! Quoting of strings into RFC 5322 / RFC 6532 quoted strings.
use std::borrow::Cow;
use vstd::prelude::*;

use crate::error::EncodingError;
use crate::grammar::{
    MailType, is_ascii, is_qtext, is_vchar, is_ws, quoted_body_ok, spec_is_ascii, spec_is_qtext,
    spec_is_quoted_string, spec_is_vchar, spec_is_ws,
};
use crate::utils::{str_chars, string_from_chars};

verus! {

/// `f` can be called on every char and answers the same for the same char.
pub open spec fn is_char_predicate<FN: Fn(char) -> bool>(f: FN) -> bool {
    &&& forall|c: char| call_requires(f, (c,))
    &&& forall|c: char, a: bool, b: bool|
        #![trigger call_ensures(f, (c,), a), call_ensures(f, (c,), b)]
        call_ensures(f, (c,), a) && call_ensures(f, (c,), b) ==> a == b
}

/// `f` accepts `c`.
pub open spec fn accepts<FN: Fn(char) -> bool>(f: FN, c: char) -> bool {
    call_ensures(f, (c,), true)
}

/// The index of the first char of `s` at or after `i` which `f` does not
/// accept, or `s.len()` if there is none.
pub open spec fn accepted_prefix_len<FN: Fn(char) -> bool>(f: FN, s: Seq<char>, i: int) -> int
    decreases s.len() - i,
{
    if i >= s.len() || !accepts(f, s[i]) {
        i
    } else {
        accepted_prefix_len(f, s, i + 1)
    }
}

/// The first `n` chars of `s` are all ascii.
pub open spec fn ascii_upto(s: Seq<char>, n: int) -> bool {
    forall|j: int| 0 <= j < n ==> #[trigger] spec_is_ascii(s[j])
}

/// The first non-ascii char of `s` in `[i, end)`, if any.
pub open spec fn first_non_ascii(s: Seq<char>, i: int, end: int) -> Option<char>
    decreases end - i,
{
    if i >= end {
        None
    } else if !spec_is_ascii(s[i]) {
        Some(s[i])
    } else {
        first_non_ascii(s, i + 1, end)
    }
}

/// The mail type a string of chars `s` needs: `Ascii` if all chars are ascii.
pub open spec fn mailtype_of(s: Seq<char>) -> MailType {
    if ascii_upto(s, s.len() as int) {
        MailType::Ascii
    } else {
        MailType::Internationalized
    }
}

/// A char can appear in a quoted string (possibly escaped).
pub open spec fn quotable(c: char) -> bool {
    spec_is_qtext(c, MailType::Internationalized) || spec_is_ws(c) || spec_is_vchar(
        c,
        MailType::Internationalized,
    )
}

/// How a quotable char is written in a quoted string: qtext and whitespace
/// as they are, every other char (`"` and `\`) behind a `\`.
pub open spec fn escaped(c: char) -> Seq<char> {
    if spec_is_qtext(c, MailType::Internationalized) || spec_is_ws(c) {
        seq![c]
    } else {
        seq!['\\', c]
    }
}

/// Prepends `p` to a successful result.
pub open spec fn prepend(p: Seq<char>, r: Result<Seq<char>, EncodingError>) -> Result<
    Seq<char>,
    EncodingError,
> {
    match r {
        Ok(t) => Ok(p + t),
        Err(e) => Err(e),
    }
}

/// The quoted form of `s` from index `i` on, including the closing `"`,
/// or the error for the first char which is not ascii (if `ascii_only`)
/// or can not be quoted.
pub open spec fn quote_tail(s: Seq<char>, i: int, ascii_only: bool) -> Result<
    Seq<char>,
    EncodingError,
>
    decreases s.len() - i,
{
    if i >= s.len() {
        Ok(seq!['"'])
    } else if ascii_only && !spec_is_ascii(s[i]) {
        Err(EncodingError::NotAscii(s[i]))
    } else if !quotable(s[i]) {
        Err(EncodingError::NotQuotable(s[i]))
    } else {
        prepend(escaped(s[i]), quote_tail(s, i + 1, ascii_only))
    }
}

/// What quoting `s` gives when its first `k` chars are valid without
/// quoting (and, if `k < s.len()`, the char at `k` is not):
/// `None` for "no quoting needed", else the quoted string.
pub open spec fn spec_quote_if_needed(s: Seq<char>, k: int, allowed: MailType) -> Result<
    (MailType, Option<Seq<char>>),
    EncodingError,
> {
    let ascii_only = allowed == MailType::Ascii;
    if ascii_only && first_non_ascii(s, 0, k) is Some {
        Err(EncodingError::NotAscii(first_non_ascii(s, 0, k)->0))
    } else if k >= s.len() {
        Ok((mailtype_of(s), None))
    } else {
        match quote_tail(s, k, ascii_only) {
            Ok(t) => Ok((mailtype_of(s), Some(seq!['"'] + s.take(k) + t))),
            Err(e) => Err(e),
        }
    }
}

/// The result of `quote_if_needed` as plain values: `None` for the
/// borrowed (unchanged) input.
pub open spec fn quoted_outcome<'a>(r: Result<(MailType, Cow<'a, str>), EncodingError>) -> Result<
    (MailType, Option<Seq<char>>),
    EncodingError,
> {
    match r {
        Ok((mt, Cow::Borrowed(_))) => Ok((mt, None)),
        Ok((mt, Cow::Owned(o))) => Ok((mt, Some(o@))),
        Err(e) => Err(e),
    }
}

/// What `quote` gives for `s`: `s` always quoted.
pub open spec fn spec_quote(s: Seq<char>) -> Result<(MailType, Seq<char>), EncodingError> {
    match quote_tail(s, 0, false) {
        Ok(t) => Ok((mailtype_of(s), seq!['"'] + t)),
        Err(e) => Err(e),
    }
}

pub(crate) proof fn lemma_prepend_assoc(p: Seq<char>, q: Seq<char>, r: Result<Seq<char>, EncodingError>)
    ensures
        prepend(p, prepend(q, r)) == prepend(p + q, r),
{
    match r {
        Ok(t) => {
            assert(p + (q + t) =~= (p + q) + t);
        },
        Err(_) => {},
    }
}

proof fn lemma_first_non_ascii_none(s: Seq<char>, i: int, end: int)
    requires
        0 <= i,
        end <= s.len(),
        forall|j: int| i <= j < end ==> #[trigger] spec_is_ascii(s[j]),
    ensures
        first_non_ascii(s, i, end) is None,
    decreases end - i,
{
    if i < end {
        lemma_first_non_ascii_none(s, i + 1, end);
    }
}

proof fn lemma_first_non_ascii_at(s: Seq<char>, i: int, j: int, end: int)
    requires
        0 <= i <= j < end,
        end <= s.len(),
        forall|l: int| i <= l < j ==> #[trigger] spec_is_ascii(s[l]),
        !spec_is_ascii(s[j]),
    ensures
        first_non_ascii(s, i, end) == Some(s[j]),
    decreases j - i,
{
    if i < j {
        lemma_first_non_ascii_at(s, i + 1, j, end);
    }
}

/// `Ascii` for `true`, `Internationalized` for `false`.
fn mailtype_from_is_ascii_bool(is_ascii: bool) -> (r: MailType)
    ensures
        r == (if is_ascii {
            MailType::Ascii
        } else {
            MailType::Internationalized
        }),
{
    if is_ascii {
        MailType::Ascii
    } else {
        MailType::Internationalized
    }
}

/// Scans `inp` for the first char which is not valid without quoting.
///
/// Returns whether all chars up to and including that char are ascii and
/// the number of chars before it (`inp@.len()` if all are valid). Fails
/// on a non-ascii char in that range if `tp` is `Ascii`.
fn scan_ahead<FN: Fn(char) -> bool>(inp: &str, valid_without_quoting: FN, tp: MailType) -> (r:
    Result<(bool, usize), EncodingError>)
    requires
        is_char_predicate(valid_without_quoting),
        inp@.len() <= usize::MAX,
    ensures
        ({
            let s = inp@;
            let k = accepted_prefix_len(valid_without_quoting, s, 0);
            let end = if k < s.len() {
                k + 1
            } else {
                s.len() as int
            };
            if tp == MailType::Ascii && first_non_ascii(s, 0, end) is Some {
                r == Err::<(bool, usize), EncodingError>(
                    EncodingError::NotAscii(first_non_ascii(s, 0, end)->0),
                )
            } else {
                r == Ok::<(bool, usize), EncodingError>((ascii_upto(s, end), k as usize))
            }
        }),
{
    let ghost s = inp@;
    let ghost f = valid_without_quoting;
    let ascii_only = tp == MailType::Ascii;
    let mut ascii = true;
    let mut count: usize = 0;
    for ch in it: inp.chars()
        invariant
            it.seq() == s,
            s == inp@,
            f == valid_without_quoting,
            is_char_predicate(f),
            count == it.index(),
            count <= s.len(),
            s.len() <= usize::MAX,
            ascii == ascii_upto(s, count as int),
            ascii_only == (tp == MailType::Ascii),
            ascii_only ==> ascii,
            accepted_prefix_len(f, s, 0) == accepted_prefix_len(f, s, count as int),
            forall|j: int| 0 <= j < count ==> #[trigger] accepts(f, s[j]),
    {
        proof {
            assert(count < s.len());
            assert(ch == s[count as int]);
        }
        if ascii && !is_ascii(ch) {
            if ascii_only {
                proof {
                    lemma_first_non_ascii_at(s, 0, count as int, count as int + 1);
                    let k = accepted_prefix_len(f, s, 0);
                    lemma_accepted_prefix_len_bounds(f, s, count as int);
                    let end = if k < s.len() { k + 1 } else { s.len() as int };
                    lemma_first_non_ascii_at(s, 0, count as int, end);
                }
                return Err(EncodingError::NotAscii(ch));
            } else {
                ascii = false;
            }
        }
        let ok = valid_without_quoting(ch);
        if !ok {
            proof {
                assert(!accepts(f, s[count as int]));
                if !ascii_only {
                } else {
                    lemma_first_non_ascii_none(s, 0, count as int + 1);
                }
                assert(ascii == ascii_upto(s, count as int + 1));
            }
            return Ok((ascii, count));
        }
        proof {
            assert(accepts(f, s[count as int]));
        }
        count = count + 1;
    }
    proof {
        if ascii_only {
            lemma_first_non_ascii_none(s, 0, s.len() as int);
        }
    }
    Ok((ascii, count))
}

proof fn lemma_accepted_prefix_len_bounds<FN: Fn(char) -> bool>(f: FN, s: Seq<char>, i: int)
    requires
        0 <= i <= s.len(),
    ensures
        i <= accepted_prefix_len(f, s, i) <= s.len(),
    decreases s.len() - i,
{
    if i < s.len() && accepts(f, s[i]) {
        lemma_accepted_prefix_len_bounds(f, s, i + 1);
    }
}


proof fn lemma_ascii_upto_first_non_ascii(s: Seq<char>, end: int)
    requires
        0 <= end <= s.len(),
    ensures
        ascii_upto(s, end) <==> first_non_ascii(s, 0, end) is None,
{
    if ascii_upto(s, end) {
        lemma_first_non_ascii_none(s, 0, end);
    } else {
        let j = choose|j: int| 0 <= j < end && !spec_is_ascii(s[j]);
        lemma_first_non_ascii_found(s, 0, j, end);
    }
}

proof fn lemma_first_non_ascii_extend(s: Seq<char>, i: int, end: int)
    requires
        0 <= i <= end < s.len(),
    ensures
        first_non_ascii(s, i, end + 1) == (if first_non_ascii(s, i, end) is Some {
            first_non_ascii(s, i, end)
        } else if !spec_is_ascii(s[end]) {
            Some(s[end])
        } else {
            None
        }),
    decreases end - i,
{
    reveal_with_fuel(first_non_ascii, 2);
    if i < end {
        lemma_first_non_ascii_extend(s, i + 1, end);
    }
}

proof fn lemma_first_non_ascii_found(s: Seq<char>, i: int, j: int, end: int)
    requires
        0 <= i <= j < end,
        end <= s.len(),
        !spec_is_ascii(s[j]),
    ensures
        first_non_ascii(s, i, end) is Some,
    decreases j - i,
{
    if i < j && spec_is_ascii(s[i]) {
        lemma_first_non_ascii_found(s, i + 1, j, end);
    }
}

/// Quotes `input` if needed (RFC 5322 / RFC 6532 / RFC 822).
///
/// The leading chars for which `valid_without_quoting` returns `true` are
/// taken as they are; if that is the whole input it is returned borrowed.
/// Else the result is the input as a quoted string, in which `"` and `\`
/// get a leading `\`. With `allowed_mail_type` `Ascii` a non-ascii char
/// is an error; else the returned mail type tells whether the input was
/// ascii. A char which can not appear in a quoted string (the controls but
/// `'\t'`, and DEL) is an error once quoting is needed.
pub fn quote_if_needed<'a, FN: Fn(char) -> bool>(
    input: &'a str,
    valid_without_quoting: FN,
    allowed_mail_type: MailType,
) -> (r: Result<(MailType, Cow<'a, str>), EncodingError>)
    requires
        is_char_predicate(valid_without_quoting),
    ensures
        quoted_outcome(r) == spec_quote_if_needed(
            input@,
            accepted_prefix_len(valid_without_quoting, input@, 0),
            allowed_mail_type,
        ),
        r matches Ok((_, Cow::Borrowed(b))) ==> b@ == input@,
        (forall|c: char|
            #[trigger] accepts(valid_without_quoting, c) ==> spec_is_qtext(
                c,
                MailType::Internationalized,
            )) ==> (r matches Ok((_, Cow::Owned(q))) ==> spec_is_quoted_string(
            q@,
            MailType::Internationalized,
        )),
{
    let chars = str_chars(input);
    let ghost s = input@;
    let ghost f = valid_without_quoting;
    let ghost k = accepted_prefix_len(f, s, 0);
    let (mut ascii, offset) = match scan_ahead(input, valid_without_quoting, allowed_mail_type) {
        Ok(v) => v,
        Err(e) => {
            proof {
                lemma_accepted_prefix_len_bounds(f, s, 0);
                if k < s.len() {
                    lemma_first_non_ascii_extend(s, 0, k);
                }
            }
            return Err(e);
        },
    };
    proof {
        lemma_accepted_prefix_len_bounds(f, s, 0);
        let end = if k < s.len() { k + 1 } else { s.len() as int };
        lemma_ascii_upto_first_non_ascii(s, end);
        lemma_ascii_upto_first_non_ascii(s, k);
    }
    if offset == chars.len() {
        return Ok((mailtype_from_is_ascii_bool(ascii), Cow::Borrowed(input)));
    }
    let ascii_only = allowed_mail_type == MailType::Ascii;
    let mut out: Vec<char> = Vec::new();
    out.push('"');
    let mut i: usize = 0;
    while i < offset
        invariant
            offset < chars.len(),
            chars@ == s,
            i <= offset,
            out@ == seq!['"'] + s.take(i as int),
        decreases offset - i,
    {
        out.push(chars[i]);
        i = i + 1;
        proof {
            assert(out@ =~= seq!['"'] + s.take(i as int));
        }
    }
    let ghost head = out@;
    while i < chars.len()
        invariant
            offset < chars.len(),
            offset == k,
            s == input@,
            f == valid_without_quoting,
            k == accepted_prefix_len(f, s, 0),
            !(ascii_only && first_non_ascii(s, 0, k) is Some),
            chars@ == s,
            offset <= i <= chars.len(),
            ascii_only == (allowed_mail_type == MailType::Ascii),
            ascii_only ==> ascii,
            ascii == ascii_upto(
                s,
                if i <= k {
                    k + 1
                } else {
                    i as int
                },
            ),
            head == seq!['"'] + s.take(k),
            prepend(head, quote_tail(s, k, ascii_only)) == prepend(
                out@,
                quote_tail(s, i as int, ascii_only),
            ),
        decreases chars.len() - i,
    {
        let ch = chars[i];
        if ascii && !is_ascii(ch) {
            if ascii_only {
                return Err(EncodingError::NotAscii(ch));
            } else {
                ascii = false;
            }
        }
        let ghost before = out@;
        if is_qtext(ch, MailType::Internationalized) {
            out.push(ch);
        } else if is_ws(ch) {
            out.push(ch);
        } else if is_vchar(ch, MailType::Internationalized) {
            out.push('\\');
            out.push(ch);
        } else {
            return Err(EncodingError::NotQuotable(ch));
        }
        proof {
            assert(out@ =~= before + escaped(ch));
            lemma_prepend_assoc(before, escaped(ch), quote_tail(s, i + 1, ascii_only));
        }
        i = i + 1;
    }
    let ghost before = out@;
    out.push('"');
    proof {
        assert(out@ =~= before + seq!['"']);
        if forall|c: char|
            #[trigger] accepts(valid_without_quoting, c) ==> spec_is_qtext(
                c,
                MailType::Internationalized,
            ) {
            let t = quote_tail(s, k, ascii_only)->Ok_0;
            assert(out@ == head + t);
            lemma_quote_tail_body(s, k, ascii_only, head);
            lemma_accepted_prefix(f, s, 0);
            assert forall|j: int| 1 <= j < 1 + k implies spec_is_qtext(
                #[trigger] out@[j],
                MailType::Internationalized,
            ) by {
                assert(out@[j] == head[j]);
                assert(head[j] == s[j - 1]);
                assert(accepts(f, s[j - 1]));
            }
            lemma_qtext_prefix_body(out@, 1, 1 + k);
        }
    }
    let quoted = string_from_chars(out.as_slice());
    Ok((mailtype_from_is_ascii_bool(ascii), Cow::Owned(quoted)))
}

/// The chars before the accepted prefix length are accepted.
proof fn lemma_accepted_prefix<FN: Fn(char) -> bool>(f: FN, s: Seq<char>, i: int)
    requires
        0 <= i <= s.len(),
    ensures
        forall|j: int| i <= j < accepted_prefix_len(f, s, i) ==> accepts(f, #[trigger] s[j]),
    decreases s.len() - i,
{
    if i < s.len() && accepts(f, s[i]) {
        lemma_accepted_prefix(f, s, i + 1);
    }
}

/// The quoted form of `s` from `i` on is the body of a quoted string,
/// whatever precedes it.
proof fn lemma_quote_tail_body(s: Seq<char>, i: int, ascii_only: bool, x: Seq<char>)
    requires
        0 <= i <= s.len(),
        quote_tail(s, i, ascii_only) is Ok,
    ensures
        quoted_body_ok(
            x + quote_tail(s, i, ascii_only)->Ok_0,
            x.len() as int,
            MailType::Internationalized,
        ),
    decreases s.len() - i,
{
    let t = quote_tail(s, i, ascii_only)->Ok_0;
    let q = x + t;
    if i == s.len() {
        assert(q[x.len() as int] == '"');
    } else {
        let c = s[i];
        let t2 = quote_tail(s, i + 1, ascii_only)->Ok_0;
        let e = escaped(c);
        assert(t == e + t2);
        lemma_quote_tail_body(s, i + 1, ascii_only, x + e);
        assert(q =~= (x + e) + t2);
        if spec_is_qtext(c, MailType::Internationalized) || spec_is_ws(c) {
            assert(q[x.len() as int] == c);
        } else {
            assert(q[x.len() as int] == '\\');
            assert(q[x.len() as int + 1] == c);
        }
    }
}

/// Qtext chars in front of the body of a quoted string keep it one.
proof fn lemma_qtext_prefix_body(q: Seq<char>, i: int, k: int)
    requires
        0 <= i <= k <= q.len(),
        quoted_body_ok(q, k, MailType::Internationalized),
        forall|j: int| i <= j < k ==> spec_is_qtext(#[trigger] q[j], MailType::Internationalized),
    ensures
        quoted_body_ok(q, i, MailType::Internationalized),
    decreases k - i,
{
    if i < k {
        lemma_qtext_prefix_body(q, i + 1, k);
        assert(spec_is_qtext(q[i], MailType::Internationalized));
    }
}

proof fn lemma_nothing_accepted<FN: Fn(char) -> bool>(f: FN, s: Seq<char>)
    requires
        forall|c: char| !#[trigger] accepts(f, c),
    ensures
        accepted_prefix_len(f, s, 0) == 0,
{
    if s.len() > 0 {
        assert(!accepts(f, s[0]));
    }
}

/// No char is valid without quoting.
fn never_valid_without_quoting(c: char) -> (b: bool)
    ensures
        !b,
{
    false
}

/// What quoting `s` always gives when the mail type `allowed` is allowed:
/// with `Ascii` a non-ascii char is an error.
pub open spec fn spec_quote_for(s: Seq<char>, allowed: MailType) -> Result<(MailType, Seq<char>), EncodingError> {
    match quote_tail(s, 0, allowed == MailType::Ascii) {
        Ok(t) => Ok((mailtype_of(s), seq!['"'] + t)),
        Err(e) => Err(e),
    }
}

/// Quotes `input`, whether or not that is needed, for a mail of type
/// `allowed` (like `quote_if_needed` with no char valid without
/// quoting); the empty input gives `""`.
pub fn quote_for(input: &str, allowed: MailType) -> (r: Result<(MailType, String), EncodingError>)
    ensures
        match r {
            Ok((mt, q)) => spec_quote_for(input@, allowed) == Ok::<
                (MailType, Seq<char>),
                EncodingError,
            >((mt, q@)),
            Err(e) => spec_quote_for(input@, allowed) == Err::<(MailType, Seq<char>), EncodingError>(
                e,
            ),
        },
{
    let never = never_valid_without_quoting;
    let ghost s = input@;
    proof {
        lemma_nothing_accepted(never, s);
    }
    match quote_if_needed(input, never, allowed) {
        Ok((mt, Cow::Owned(owned))) => {
            proof {
                assert(seq!['"'] + s.take(0) =~= seq!['"']);
            }
            Ok((mt, owned))
        },
        Ok((mt, Cow::Borrowed(_))) => {
            let both = vec!['"', '"'];
            let empty_quoted = string_from_chars(both.as_slice());
            proof {
                assert(seq!['"'] + seq!['"'] =~= both@);
            }
            Ok((mt, empty_quoted))
        },
        Err(e) => Err(e),
    }
}

/// Quotes `input`, whether or not that is needed.
///
/// Like `quote_if_needed` with no char valid without quoting and
/// internationalized mails allowed; the empty input gives `""`.
pub fn quote(input: &str) -> (r: Result<(MailType, String), EncodingError>)
    ensures
        match r {
            Ok((mt, q)) => spec_quote(input@) == Ok::<(MailType, Seq<char>), EncodingError>(
                (mt, q@),
            ),
            Err(e) => spec_quote(input@) == Err::<(MailType, Seq<char>), EncodingError>(e),
        },
{
    quote_for(input, MailType::Internationalized)
}

} // verus!
