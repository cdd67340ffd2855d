//! Character classes for mails which are either ascii or internationalized.
use vstd::prelude::*;

use crate::grammar;
use crate::grammar::{
    code, spec_is_ascii, spec_is_ctl, spec_is_especial, spec_is_special, spec_is_tspecial,
    spec_is_unicode_whitespace, spec_is_ws,
};

pub mod encoded_word;
pub mod quoted_word;

verus! {

/// The kind of mail a text is written for.
#[derive(Debug, Clone, Copy, Hash, PartialEq, Eq, Structural)]
pub enum MailType {
    Ascii,
    Internationalized,
}

impl MailType {
    /// `true` for internationalized mails.
    pub fn supports_utf8(&self) -> (r: bool)
        ensures
            r == (*self == MailType::Internationalized),
    {
        match *self {
            MailType::Ascii => false,
            MailType::Internationalized => true,
        }
    }
}

/// The `grammar` mail type of the same name.
pub open spec fn as_grammar(tp: MailType) -> grammar::MailType {
    match tp {
        MailType::Ascii => grammar::MailType::Ascii,
        MailType::Internationalized => grammar::MailType::Internationalized,
    }
}

/// VCHAR of RFC 5234: a visible ascii char (0x21 to 0x7E).
pub open spec fn spec_is_ascii_vchar(ch: char) -> bool {
    32 < code(ch) && code(ch) < 127
}

pub open spec fn spec_is_vchar(ch: char, tp: MailType) -> bool {
    spec_is_ascii_vchar(ch) || (tp == MailType::Internationalized && !spec_is_ascii(ch))
}

pub open spec fn spec_is_atext(ch: char, tp: MailType) -> bool {
    spec_is_vchar(ch, tp) && !spec_is_special(ch)
}

/// WS as defined by RFC 5234
pub fn is_ws(ch: char) -> (r: bool)
    ensures
        r == spec_is_ws(ch),
{
    grammar::is_ws(ch)
}

/// the space char
pub fn is_space(ch: char) -> (r: bool)
    ensures
        r == (ch == ' '),
{
    grammar::is_space(ch)
}

/// a visible ascii char (VCHAR of RFC 5234)
pub fn is_ascii_vchar(ch: char) -> (r: bool)
    ensures
        r == spec_is_ascii_vchar(ch),
{
    let u32_ch: u32 = ch as u32;
    32 < u32_ch && u32_ch < 127
}

/// VCHAR as defined by RFC 5234, extended by RFC 6532 for internationalized mails
pub fn is_vchar(ch: char, tp: MailType) -> (r: bool)
    ensures
        r == spec_is_vchar(ch, tp),
{
    match tp {
        MailType::Ascii => is_ascii_vchar(ch),
        MailType::Internationalized => is_ascii_vchar(ch) || !grammar::is_ascii(ch),
    }
}

/// any whitespace (the Unicode `White_Space` property)
pub fn is_any_whitespace(ch: char) -> (r: bool)
    ensures
        r == spec_is_unicode_whitespace(ch),
{
    grammar::is_any_whitespace(ch)
}

/// ctext as defined by RFC 5322
pub fn is_ctext(ch: char, tp: MailType) -> (r: bool)
    ensures
        r == grammar::spec_is_ctext(ch, as_grammar(tp)),
{
    grammar::is_ctext(ch, if tp.supports_utf8() {
        grammar::MailType::Internationalized
    } else {
        grammar::MailType::Ascii
    })
}

/// specials as defined by RFC 5322
pub fn is_special(ch: char) -> (r: bool)
    ensures
        r == spec_is_special(ch),
{
    grammar::is_special(ch)
}

/// tspecials as defined by RFC 2045
pub fn is_tspecial(ch: char) -> (r: bool)
    ensures
        r == spec_is_tspecial(ch),
{
    grammar::is_tspecial(ch)
}

/// atext as defined by RFC 5322
pub fn is_atext(ch: char, tp: MailType) -> (r: bool)
    ensures
        r == spec_is_atext(ch, tp),
{
    is_vchar(ch, tp) && !is_special(ch)
}

/// dtext as defined by RFC 5322
pub fn is_dtext(ch: char, tp: MailType) -> (r: bool)
    ensures
        r == grammar::spec_is_dtext(ch, as_grammar(tp)),
{
    grammar::is_dtext(ch, if tp.supports_utf8() {
        grammar::MailType::Internationalized
    } else {
        grammar::MailType::Ascii
    })
}

/// qtext as defined by RFC 5322
pub fn is_qtext(ch: char, tp: MailType) -> (r: bool)
    ensures
        r == grammar::spec_is_qtext(ch, as_grammar(tp)),
{
    grammar::is_qtext(ch, if tp.supports_utf8() {
        grammar::MailType::Internationalized
    } else {
        grammar::MailType::Ascii
    })
}

/// a control char (RFC 822)
pub fn is_ctl(ch: char) -> (r: bool)
    ensures
        r == spec_is_ctl(ch),
{
    grammar::is_ctl(ch)
}

/// especials as defined by RFC 2047
pub fn is_especial(ch: char) -> (r: bool)
    ensures
        r == spec_is_especial(ch),
{
    grammar::is_especial(ch)
}

} // verus!
