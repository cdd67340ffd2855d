//! Encoded words (RFC 2047): `=?charset?encoding?text?=`.
use vstd::prelude::*;

use crate::char_validators::{is_ascii_vchar, is_especial, spec_is_ascii_vchar};
use crate::error::EncodingError;
use crate::grammar::spec_is_especial;
use crate::utils::str_chars;
use vstd::string::StrSliceExecFns;

verus! {

/// Where an encoded word appears; it decides which chars its text may hold.
#[derive(Debug, Clone, Copy, Hash, PartialEq, Eq, Structural)]
pub enum EncodedWordContext {
    Phrase,
    Text,
    Comment,
}

pub open spec fn spec_is_encoded_word_char(ch: char) -> bool {
    spec_is_ascii_vchar(ch) && ch != '?'
}

pub open spec fn spec_valid_char_in_ec_in_comment(ch: char) -> bool {
    spec_is_encoded_word_char(ch) && !(ch == '(' || ch == ')' || ch == '"')
}

pub open spec fn spec_is_ew_token_char(ch: char) -> bool {
    spec_is_ascii_vchar(ch) && !spec_is_especial(ch)
}

pub open spec fn spec_valid_char_in_ec_in_phrase(ch: char) -> bool {
    ('0' <= ch <= '9') || ('a' <= ch <= 'z') || ('A' <= ch <= 'Z') || ch == '!' || ch == '*'
        || ch == '+' || ch == '-' || ch == '/' || ch == '=' || ch == '_'
}

impl EncodedWordContext {
    /// The chars the text of an encoded word may hold in this context.
    pub open spec fn spec_char_valid(self, ch: char) -> bool {
        match self {
            EncodedWordContext::Phrase => spec_valid_char_in_ec_in_phrase(ch),
            EncodedWordContext::Text => spec_is_encoded_word_char(ch),
            EncodedWordContext::Comment => spec_valid_char_in_ec_in_comment(ch),
        }
    }

    /// Whether `ch` may appear in the text of an encoded word in this context.
    pub fn char_validator(&self, ch: char) -> (r: bool)
        ensures
            r == self.spec_char_valid(ch),
    {
        match *self {
            EncodedWordContext::Phrase => valid_char_in_ec_in_phrase(ch),
            EncodedWordContext::Text => is_encoded_word_char(ch),
            EncodedWordContext::Comment => valid_char_in_ec_in_comment(ch),
        }
    }
}

fn is_encoded_word_char(ch: char) -> (r: bool)
    ensures
        r == spec_is_encoded_word_char(ch),
{
    is_ascii_vchar(ch) && ch != '?'
}

fn valid_char_in_ec_in_comment(ch: char) -> (r: bool)
    ensures
        r == spec_valid_char_in_ec_in_comment(ch),
{
    is_encoded_word_char(ch) && !(ch == '(' || ch == ')' || ch == '"')
}

fn is_ew_token_char(ch: char) -> (r: bool)
    ensures
        r == spec_is_ew_token_char(ch),
{
    is_ascii_vchar(ch) && !is_especial(ch)
}

fn valid_char_in_ec_in_phrase(ch: char) -> (r: bool)
    ensures
        r == spec_valid_char_in_ec_in_phrase(ch),
{
    ('0' <= ch && ch <= '9') || ('a' <= ch && ch <= 'z') || ('A' <= ch && ch <= 'Z') || ch == '!'
        || ch == '*' || ch == '+' || ch == '-' || ch == '/' || ch == '=' || ch == '_'
}

/// The end of the run of token chars of `s` starting at `i`.
pub open spec fn token_run_end(s: Seq<char>, i: int) -> int
    decreases s.len() - i,
{
    if i >= s.len() || !spec_is_ew_token_char(s[i]) {
        i
    } else {
        token_run_end(s, i + 1)
    }
}

/// The end of the run of chars of `s` starting at `i` valid in `ctx`.
pub open spec fn text_run_end(s: Seq<char>, i: int, ctx: EncodedWordContext) -> int
    decreases s.len() - i,
{
    if i >= s.len() || !ctx.spec_char_valid(s[i]) {
        i
    } else {
        text_run_end(s, i + 1, ctx)
    }
}

/// The charset, encoding and text of the encoded word `s`, read as
/// `=?`, the longest run of token chars, `?`, the longest run of token
/// chars, `?`, the longest run of text chars, `?=` and the end of `s`.
/// `None` if `s` is not of that form.
pub open spec fn spec_encoded_word_parts(s: Seq<char>, ctx: EncodedWordContext) -> Option<
    (Seq<char>, Seq<char>, Seq<char>),
> {
    let j1 = token_run_end(s, 2);
    let j2 = token_run_end(s, j1 + 1);
    let j3 = text_run_end(s, j2 + 1, ctx);
    if s.len() >= 2 && s[0] == '=' && s[1] == '?' && j1 < s.len() && s[j1] == '?' && j2 < s.len()
        && s[j2] == '?' && j3 + 2 == s.len() && s[j3] == '?' && s[j3 + 1] == '=' {
        Some((s.subrange(2, j1), s.subrange(j1 + 1, j2), s.subrange(j2 + 1, j3)))
    } else {
        None
    }
}

proof fn lemma_token_run_bounds(s: Seq<char>, i: int)
    requires
        0 <= i <= s.len(),
    ensures
        i <= token_run_end(s, i) <= s.len(),
    decreases s.len() - i,
{
    if i < s.len() && spec_is_ew_token_char(s[i]) {
        lemma_token_run_bounds(s, i + 1);
    }
}

proof fn lemma_text_run_bounds(s: Seq<char>, i: int, ctx: EncodedWordContext)
    requires
        0 <= i <= s.len(),
    ensures
        i <= text_run_end(s, i, ctx) <= s.len(),
    decreases s.len() - i,
{
    if i < s.len() && ctx.spec_char_valid(s[i]) {
        lemma_text_run_bounds(s, i + 1, ctx);
    }
}

/// The index after the run of token chars of `s` starting at `i`.
fn skip_token_chars(s: &Vec<char>, i: usize) -> (r: usize)
    requires
        i <= s.len(),
    ensures
        r == token_run_end(s@, i as int),
{
    let mut j = i;
    while j < s.len() && is_ew_token_char(s[j])
        invariant
            i <= j <= s.len(),
            token_run_end(s@, i as int) == token_run_end(s@, j as int),
        decreases s.len() - j,
    {
        j = j + 1;
    }
    j
}

/// The index after the run of text chars of `s` (valid in `ctx`)
/// starting at `i`.
fn skip_text_chars(s: &Vec<char>, i: usize, ctx: EncodedWordContext) -> (r: usize)
    requires
        i <= s.len(),
    ensures
        r == text_run_end(s@, i as int, ctx),
{
    let mut j = i;
    while j < s.len() && ctx.char_validator(s[j])
        invariant
            i <= j <= s.len(),
            text_run_end(s@, i as int, ctx) == text_run_end(s@, j as int, ctx),
        decreases s.len() - j,
    {
        j = j + 1;
    }
    j
}

/// Splits `word` into charset, encoding and text.
///
/// Fails with `Malformed` if `word` is not of the form
/// `=?charset?encoding?text?=` for `ctx`.
pub fn try_parse_encoded_word_parts<'a>(word: &'a str, ctx: EncodedWordContext) -> (r: Result<
    (&'a str, &'a str, &'a str),
    EncodingError,
>)
    ensures
        match spec_encoded_word_parts(word@, ctx) {
            Some((charset, encoding, text)) => r matches Ok((a, b, c)) && a@ == charset && b@
                == encoding && c@ == text,
            None => r == Err::<(&'a str, &'a str, &'a str), EncodingError>(
                EncodingError::Malformed,
            ),
        },
{
    let s = str_chars(word);
    if s.len() < 2 || s[0] != '=' || s[1] != '?' {
        return Err(EncodingError::Malformed);
    }
    proof {
        lemma_token_run_bounds(s@, 2);
    }
    let j1 = skip_token_chars(&s, 2);
    if j1 >= s.len() || s[j1] != '?' {
        return Err(EncodingError::Malformed);
    }
    proof {
        lemma_token_run_bounds(s@, j1 + 1);
    }
    let j2 = skip_token_chars(&s, j1 + 1);
    if j2 >= s.len() || s[j2] != '?' {
        return Err(EncodingError::Malformed);
    }
    proof {
        lemma_text_run_bounds(s@, j2 + 1, ctx);
    }
    let j3 = skip_text_chars(&s, j2 + 1, ctx);
    if j3 >= s.len() {
        return Err(EncodingError::Malformed);
    }
    if s.len() - j3 != 2 || s[j3] != '?' || s[j3 + 1] != '=' {
        return Err(EncodingError::Malformed);
    }
    let charset = word.substring_char(2, j1);
    let encoding = word.substring_char(j1 + 1, j2);
    let text = word.substring_char(j2 + 1, j3);
    Ok((charset, encoding, text))
}

/// Whether `word` is of the form `=?charset?encoding?text?=` for `ctx`.
pub fn is_encoded_word(word: &str, ctx: EncodedWordContext) -> (r: bool)
    ensures
        r == spec_encoded_word_parts(word@, ctx) is Some,
{
    try_parse_encoded_word_parts(word, ctx).is_ok()
}

} // verus!
