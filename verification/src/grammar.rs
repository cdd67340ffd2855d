//! Character classes and small recognizers of the mail grammar
//! (RFC 5322, RFC 2045, RFC 5234, RFC 6532).
use vstd::prelude::*;

pub mod encoded_word;

verus! {

/// The kind of mail a header or body is written for.
#[derive(Debug, Clone, Copy, Hash, PartialEq, Eq, Structural)]
pub enum MailType {
    Ascii,
    Mime8BitEnabled,
    Internationalized,
}

impl MailType {
    /// `true` only for `Internationalized` mails.
    pub fn is_internationalized(&self) -> (r: bool)
        ensures
            r == (*self == MailType::Internationalized),
    {
        *self == MailType::Internationalized
    }

    /// `true` for every mail type except `Ascii`.
    pub fn supports_8bit_bodies(&self) -> (r: bool)
        ensures
            r == (*self != MailType::Ascii),
    {
        match *self {
            MailType::Ascii => false,
            MailType::Mime8BitEnabled => true,
            MailType::Internationalized => true,
        }
    }
}

/// The code point of `c`.
pub open spec fn code(c: char) -> u32 {
    c as u32
}

pub open spec fn spec_is_ascii(c: char) -> bool {
    code(c) < 128
}

/// All chars of `s` are ascii.
pub open spec fn all_ascii(s: Seq<char>) -> bool {
    forall|j: int| 0 <= j < s.len() ==> #[trigger] spec_is_ascii(s[j])
}

/// The code of a char is the char as an integer.
pub proof fn lemma_char_code(c: char)
    ensures
        code(c) as int == c as int,
{
    assert((c as u32) as int == c as int);
}

proof fn lemma_char_ascii(c: char)
    ensures
        spec_is_ascii(c) <==> ('\0' <= c <= '\u{7f}'),
{
    assert((c as u32) as int == c as int);
    assert('\u{7f}' as int == 127);
    assert('\0' as int == 0);
}

/// Appending a char keeps a string ascii iff the char is ascii.
pub proof fn lemma_all_ascii_push(s: Seq<char>, c: char)
    ensures
        all_ascii(s.push(c)) <==> all_ascii(s) && spec_is_ascii(c),
{
    if all_ascii(s.push(c)) {
        assert(s.push(c)[s.len() as int] == c);
        assert forall|j: int| 0 <= j < s.len() implies #[trigger] spec_is_ascii(s[j]) by {
            assert(s.push(c)[j] == s[j]);
        }
    }
    if all_ascii(s) && spec_is_ascii(c) {
        assert forall|j: int| 0 <= j < s.len() + 1 implies #[trigger] spec_is_ascii(s.push(c)[j]) by {
            if j < s.len() {
                assert(s.push(c)[j] == s[j]);
            }
        }
    }
}

/// `all_ascii` is the notion of ascii that `str::is_ascii` uses.
pub proof fn lemma_all_ascii_is_ascii_chars(s: Seq<char>)
    ensures
        all_ascii(s) <==> vstd::utf8::is_ascii_chars(s),
{
    if all_ascii(s) {
        assert forall|i: int| 0 <= i < s.len() implies '\0' <= #[trigger] s[i] <= '\u{7f}' by {
            lemma_char_ascii(s[i]);
        }
    }
    if vstd::utf8::is_ascii_chars(s) {
        assert forall|j: int| 0 <= j < s.len() implies #[trigger] spec_is_ascii(s[j]) by {
            lemma_char_ascii(s[j]);
        }
    }
}

/// ftext of RFC 5322: printable US-ASCII without `:` (0x21-0x39, 0x3B-0x7E)
pub open spec fn spec_is_ftext(c: char) -> bool {
    33 <= code(c) && code(c) <= 126 && c != ':'
}

pub open spec fn spec_is_ws(c: char) -> bool {
    c == ' ' || c == '\t'
}

pub open spec fn spec_is_ascii_vchar(c: char) -> bool {
    32 < code(c) && code(c) <= 126
}

pub open spec fn spec_is_vchar(c: char, mt: MailType) -> bool {
    spec_is_ascii_vchar(c) || (mt == MailType::Internationalized && !spec_is_ascii(c))
}

pub open spec fn spec_is_quotable(c: char, mt: MailType) -> bool {
    spec_is_vchar(c, mt) || spec_is_ws(c)
}

/// The code points with the Unicode `White_Space` property.
pub open spec fn spec_is_unicode_whitespace(c: char) -> bool {
    let u = code(c);
    (0x09 <= u && u <= 0x0D) || u == 0x20 || u == 0x85 || u == 0xA0 || u == 0x1680
        || (0x2000 <= u && u <= 0x200A) || u == 0x2028 || u == 0x2029 || u == 0x202F
        || u == 0x205F || u == 0x3000
}

pub open spec fn spec_is_ctext(c: char, mt: MailType) -> bool {
    let u = code(c);
    (33 <= u && u <= 39) || (42 <= u && u <= 91) || (93 <= u && u <= 126) || (mt
        == MailType::Internationalized && !spec_is_ascii(c))
}

pub open spec fn spec_is_special(c: char) -> bool {
    c == '(' || c == ')' || c == '<' || c == '>' || c == '[' || c == ']' || c == ':' || c == ';'
        || c == '@' || c == '\\' || c == ',' || c == '.' || c == '"'
}

pub open spec fn spec_is_tspecial(c: char) -> bool {
    c == '(' || c == ')' || c == '<' || c == '>' || c == '@' || c == ',' || c == ';' || c == ':'
        || c == '\\' || c == '"' || c == '/' || c == '[' || c == ']' || c == '?' || c == '='
}

pub open spec fn spec_is_atext(c: char, mt: MailType) -> bool {
    spec_is_vchar(c, mt) && !spec_is_special(c)
}

pub open spec fn spec_is_dtext(c: char, mt: MailType) -> bool {
    let u = code(c);
    (33 <= u && u <= 90) || (94 <= u && u <= 126) || (mt == MailType::Internationalized
        && !spec_is_ascii(c))
}

pub open spec fn spec_is_qtext(c: char, mt: MailType) -> bool {
    let u = code(c);
    u == 33 || (35 <= u && u <= 91) || (93 <= u && u <= 126) || (mt == MailType::Internationalized
        && !spec_is_ascii(c))
}

/// CTL of RFC 822: the chars 0 to 31 and DEL (127)
pub open spec fn spec_is_ctl(c: char) -> bool {
    code(c) < 32 || code(c) == 127
}

pub open spec fn spec_is_token_char(c: char) -> bool {
    spec_is_ascii(c) && !spec_is_ctl(c) && !spec_is_tspecial(c) && c != ' '
}

pub open spec fn spec_is_especial(c: char) -> bool {
    c == '(' || c == ')' || c == '<' || c == '>' || c == '@' || c == ',' || c == ';' || c == ':'
        || c == '"' || c == '/' || c == '[' || c == ']' || c == '?' || c == '.' || c == '='
}

pub open spec fn spec_is_token(s: Seq<char>) -> bool {
    0 < s.len() && forall|i: int| 0 <= i < s.len() ==> #[trigger] spec_is_token_char(s[i])
}

/// ftext as defined by RFC 5322: printable US-ASCII without `:`
#[verifier::when_used_as_spec(spec_is_ftext)]
pub fn is_ftext(ch: char) -> (r: bool)
    ensures
        r == spec_is_ftext(ch),
{
    let u: u32 = ch as u32;
    33 <= u && u <= 126 && ch != ':'
}

/// WSP as defined by RFC 5234, i.e. `' '` or `'\t'`
#[verifier::when_used_as_spec(spec_is_ws)]
pub fn is_ws(ch: char) -> (r: bool)
    ensures
        r == spec_is_ws(ch),
{
    ch == ' ' || ch == '\t'
}

pub fn is_space(ch: char) -> (r: bool)
    ensures
        r == (ch == ' '),
{
    ch == ' '
}

#[verifier::when_used_as_spec(spec_is_ascii)]
pub fn is_ascii(ch: char) -> (r: bool)
    ensures
        r == spec_is_ascii(ch),
{
    (ch as u32) < 128
}

#[verifier::when_used_as_spec(spec_is_ascii_vchar)]
pub fn is_ascii_vchar(ch: char) -> (r: bool)
    ensures
        r == spec_is_ascii_vchar(ch),
{
    let u: u32 = ch as u32;
    32 < u && u <= 126
}

/// VCHAR as defined by RFC 5234, extended by RFC 6532 for internationalized mails
#[verifier::when_used_as_spec(spec_is_vchar)]
pub fn is_vchar(ch: char, mt: MailType) -> (r: bool)
    ensures
        r == spec_is_vchar(ch, mt),
{
    is_ascii_vchar(ch) || (mt == MailType::Internationalized && !is_ascii(ch))
}

/// chars which can appear in a quoted string (escaped or not)
#[verifier::when_used_as_spec(spec_is_quotable)]
pub fn is_quotable(ch: char, tp: MailType) -> (r: bool)
    ensures
        r == spec_is_quotable(ch, tp),
{
    is_vchar(ch, tp) || is_ws(ch)
}

/// any unicode whitespace (the `White_Space` property)
#[verifier::when_used_as_spec(spec_is_unicode_whitespace)]
pub fn is_any_whitespace(ch: char) -> (r: bool)
    ensures
        r == spec_is_unicode_whitespace(ch),
{
    let u: u32 = ch as u32;
    (0x09 <= u && u <= 0x0D) || u == 0x20 || u == 0x85 || u == 0xA0 || u == 0x1680 || (0x2000 <= u
        && u <= 0x200A) || u == 0x2028 || u == 0x2029 || u == 0x202F || u == 0x205F || u == 0x3000
}

/// ctext as defined by RFC 5322
#[verifier::when_used_as_spec(spec_is_ctext)]
pub fn is_ctext(ch: char, mt: MailType) -> (r: bool)
    ensures
        r == spec_is_ctext(ch, mt),
{
    match ch {
        '!'..='\'' | '*'..='[' | ']'..='~' => true,
        _ => mt == MailType::Internationalized && !is_ascii(ch),
    }
}

/// specials as defined by RFC 5322
#[verifier::when_used_as_spec(spec_is_special)]
pub fn is_special(ch: char) -> (r: bool)
    ensures
        r == spec_is_special(ch),
{
    match ch {
        '(' | ')' | '<' | '>' | '[' | ']' | ':' | ';' | '@' | '\\' | ',' | '.' | '"' => true,
        _ => false,
    }
}

/// tspecials as defined by RFC 2045
#[verifier::when_used_as_spec(spec_is_tspecial)]
pub fn is_tspecial(ch: char) -> (r: bool)
    ensures
        r == spec_is_tspecial(ch),
{
    match ch {
        '(' | ')' | '<' | '>' | '@' | ',' | ';' | ':' | '\\' | '"' | '/' | '[' | ']' | '?'
        | '=' => true,
        _ => false,
    }
}

/// atext as defined by RFC 5322
#[verifier::when_used_as_spec(spec_is_atext)]
pub fn is_atext(ch: char, tp: MailType) -> (r: bool)
    ensures
        r == spec_is_atext(ch, tp),
{
    is_vchar(ch, tp) && !is_special(ch)
}

/// dtext as defined by RFC 5322
#[verifier::when_used_as_spec(spec_is_dtext)]
pub fn is_dtext(ch: char, mt: MailType) -> (r: bool)
    ensures
        r == spec_is_dtext(ch, mt),
{
    let u: u32 = ch as u32;
    if (33 <= u && u <= 90) || (94 <= u && u <= 126) {
        true
    } else {
        mt == MailType::Internationalized && !is_ascii(ch)
    }
}

/// qtext as defined by RFC 5322
#[verifier::when_used_as_spec(spec_is_qtext)]
pub fn is_qtext(ch: char, mt: MailType) -> (r: bool)
    ensures
        r == spec_is_qtext(ch, mt),
{
    match ch {
        '!' | '#'..='[' | ']'..='~' => true,
        _ => mt == MailType::Internationalized && !is_ascii(ch),
    }
}

/// CTL as defined by RFC 822: 0 to 31 and DEL (note that `'\t'` is a CTL
/// but `' '` is not)
#[verifier::when_used_as_spec(spec_is_ctl)]
pub fn is_ctl(ch: char) -> (r: bool)
    ensures
        r == spec_is_ctl(ch),
{
    let u: u32 = ch as u32;
    u < 32 || u == 127
}

/// token char as defined by RFC 2045
#[verifier::when_used_as_spec(spec_is_token_char)]
pub fn is_token_char(ch: char) -> (r: bool)
    ensures
        r == spec_is_token_char(ch),
{
    is_ascii(ch) && !is_ctl(ch) && !is_tspecial(ch) && ch != ' '
}

#[verifier::when_used_as_spec(spec_is_especial)]
pub fn is_especial(ch: char) -> (r: bool)
    ensures
        r == spec_is_especial(ch),
{
    match ch {
        '(' | ')' | '<' | '>' | '@' | ',' | ';' | ':' | '"' | '/' | '[' | ']' | '?' | '.'
        | '=' => true,
        _ => false,
    }
}

/// a token (RFC 2045) is a non-empty sequence of token chars
pub fn is_token(s: &str) -> (r: bool)
    ensures
        r == spec_is_token(s@),
{
    let mut all: bool = true;
    let mut nonempty: bool = false;
    for c in it: s.chars()
        invariant
            it.seq() == s@,
            nonempty == (it.index() > 0),
            all == (forall|i: int| 0 <= i < it.index() ==> #[trigger] spec_is_token_char(s@[i])),
    {
        if !is_token_char(c) {
            all = false;
        }
        nonempty = true;
    }
    nonempty && all
}

/// The grammar of a quoted string (RFC 5322, without line breaks): `"`
/// then (qtext, a space or tab, or `\` followed by a quotable char)* then
/// `"`, ending the input.
pub open spec fn quoted_body_ok(s: Seq<char>, i: int, tp: MailType) -> bool
    decreases s.len() - i,
{
    if i >= s.len() {
        false
    } else if s[i] == '\\' {
        i + 1 < s.len() && spec_is_quotable(s[i + 1], tp) && quoted_body_ok(s, i + 2, tp)
    } else if s[i] == '"' {
        i + 1 == s.len()
    } else {
        (spec_is_qtext(s[i], tp) || spec_is_ws(s[i])) && quoted_body_ok(s, i + 1, tp)
    }
}

pub open spec fn spec_is_quoted_string(s: Seq<char>, tp: MailType) -> bool {
    s.len() > 0 && s[0] == '"' && quoted_body_ok(s, 1, tp)
}

/// checks if `qstr` is a valid quoted string (RFC 5322, extended by RFC 6532)
pub fn is_quoted_string(qstr: &str, tp: MailType) -> (r: bool)
    ensures
        r == spec_is_quoted_string(qstr@, tp),
{
    let s = crate::utils::str_chars(qstr);
    if s.len() == 0 || s[0] != '"' {
        return false;
    }
    is_quoted_body(&s, 1, tp)
}

/// iterative check of `quoted_body_ok(s, start, tp)`
pub(crate) fn is_quoted_body(s: &Vec<char>, start: usize, tp: MailType) -> (r: bool)
    requires
        start <= s.len(),
    ensures
        r == quoted_body_ok(s@, start as int, tp),
{
    let mut i: usize = start;
    while i < s.len()
        invariant
            start <= i <= s.len() + 1,
            quoted_body_ok(s@, start as int, tp) == quoted_body_ok(s@, i as int, tp),
        decreases s.len() + 1 - i,
    {
        let ch = s[i];
        if ch == '\\' {
            if i + 1 < s.len() {
                let next = s[i + 1];
                if !(is_vchar(next, tp) || is_ws(next)) {
                    return false;
                }
                i = i + 2;
            } else {
                return false;
            }
        } else if ch == '"' {
            return i + 1 == s.len();
        } else {
            if !(is_qtext(ch, tp) || is_ws(ch)) {
                return false;
            }
            i = i + 1;
        }
    }
    false
}

} // verus!
