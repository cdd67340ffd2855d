//! Quoted words: quoted strings with the char classes of `char_validators`.
use vstd::prelude::*;

use crate::char_validators::{MailType, as_grammar, is_qtext, is_vchar, is_ws, spec_is_vchar};
use crate::grammar::{spec_is_qtext, spec_is_ws};
use crate::utils::str_chars;

verus! {

/// The grammar of a quoted word after its opening `"`, from index `i`:
/// (qtext or `\` followed by a visible char or whitespace)* then `"`,
/// ending the input.
pub open spec fn quoted_word_body_ok(s: Seq<char>, i: int, tp: MailType) -> bool
    decreases s.len() - i,
{
    if i >= s.len() {
        false
    } else if s[i] == '\\' {
        i + 1 < s.len() && (spec_is_vchar(s[i + 1], tp) || spec_is_ws(s[i + 1]))
            && quoted_word_body_ok(s, i + 2, tp)
    } else if s[i] == '"' {
        i + 1 == s.len()
    } else {
        spec_is_qtext(s[i], as_grammar(tp)) && quoted_word_body_ok(s, i + 1, tp)
    }
}

pub open spec fn spec_is_quoted_word(s: Seq<char>, tp: MailType) -> bool {
    s.len() > 0 && s[0] == '"' && quoted_word_body_ok(s, 1, tp)
}

/// Whether `qword` is a quoted word for mails of type `tp`.
pub fn is_quoted_word(qword: &str, tp: MailType) -> (r: bool)
    ensures
        r == spec_is_quoted_word(qword@, tp),
{
    let s = str_chars(qword);
    if s.len() == 0 || s[0] != '"' {
        return false;
    }
    let mut i: usize = 1;
    while i < s.len()
        invariant
            1 <= i <= s.len() + 1,
            s@ == qword@,
            s.len() > 0 && s@[0] == '"',
            quoted_word_body_ok(s@, 1, tp) == quoted_word_body_ok(s@, i as int, tp),
        decreases s.len() + 1 - i,
    {
        let ch = s[i];
        if ch == '\\' {
            if i + 1 < s.len() {
                let next_char = s[i + 1];
                if !(is_vchar(next_char, tp) || is_ws(next_char)) {
                    return false;
                }
                i = i + 2;
            } else {
                return false;
            }
        } else if ch == '"' {
            return i + 1 == s.len();
        } else {
            if !is_qtext(ch, tp) {
                return false;
            }
            i = i + 1;
        }
    }
    false
}

} // verus!
