//! A word of a phrase: atext, a quoted string or encoded words.
use vstd::prelude::*;

use crate::codec::encoder::{EncodeHeaderHandle, HeaderView, TokenView};
use crate::codec::writer::EncodedWordEncoding;
use crate::components::cfws::CFWS;
use crate::data::encoded_word::{EncodedWord, spec_encoded_word_write};
use crate::data::quoted::{QuotedString, spec_quoted_write};
use crate::error::EncodingError;
use crate::grammar::{
    MailType, all_ascii, is_atext, lemma_all_ascii_is_ascii_chars, spec_is_ascii, spec_is_atext,
};
use crate::grammar::encoded_word::EncodedWordContext;
use crate::utils::{str_chars, string_from_chars};

verus! {

/// A word with optional padding before and after it.
#[derive(Debug, Clone, Eq, PartialEq, Hash)]
pub struct Word {
    pub left_padding: Option<CFWS>,
    pub input: String,
    pub right_padding: Option<CFWS>,
}

/// `s` can be written as it is: it does not start with `=?` (which would
/// make it look like an encoded word) and is atext for the mail type.
pub open spec fn is_plain_word(s: Seq<char>, mt: MailType) -> bool {
    !(s.len() >= 2 && s[0] == '=' && s[1] == '?') && forall|i: int|
        0 <= i < s.len() ==> spec_is_atext(#[trigger] s[i], mt)
}

impl Word {
    /// A word without padding.
    pub fn from_input(input: &str) -> (r: Self)
        ensures
            r.input@ == input@,
            r.left_padding is None,
            r.right_padding is None,
    {
        Word {
            left_padding: None,
            input: string_from_chars(str_chars(input).as_slice()),
            right_padding: None,
        }
    }

    /// Sets the padding before the word.
    pub fn pad_left(&mut self, padding: CFWS)
        ensures
            *final(self) == (Word { left_padding: Some(padding), ..*old(self) }),
    {
        self.left_padding = Some(padding);
    }

    /// Sets the padding after the word.
    pub fn pad_right(&mut self, padding: CFWS)
        ensures
            *final(self) == (Word { right_padding: Some(padding), ..*old(self) }),
    {
        self.right_padding = Some(padding);
    }
}

/// The state after the padding `p` is written: folding whitespace, if
/// there is a padding.
pub open spec fn pad_view(v: HeaderView, p: Option<CFWS>) -> HeaderView {
    match p {
        Some(_) => v.fws(),
        None => v,
    }
}

/// Writing the text of a word: as it is if it is a plain word for the
/// mail type (as ascii, or as utf8 if it is not ascii), else as encoded
/// words if an encoded word context is given, else as a quoted string.
pub open spec fn write_word_text(v: HeaderView, s: Seq<char>, ctx: Option<EncodedWordContext>) -> (
    HeaderView,
    Result<(), EncodingError>,
) {
    if is_plain_word(s, v.mail_type) {
        if all_ascii(s) {
            v.write_with(TokenView::NowStr, s)
        } else {
            v.write_with(TokenView::NowUtf8, s)
        }
    } else if ctx is Some {
        (spec_encoded_word_write(v, s, EncodedWordEncoding::QuotedPrintable), Ok(()))
    } else {
        spec_quoted_write(v, s)
    }
}

/// Writing a word: its padding before, its text and its padding after,
/// stopping at the first error.
pub open spec fn spec_encode_word(v: HeaderView, word: Word, ctx: Option<EncodedWordContext>) -> (
    HeaderView,
    Result<(), EncodingError>,
) {
    let (v2, r2) = write_word_text(pad_view(v, word.left_padding), word.input@, ctx);
    if r2 is Err {
        (v2, r2)
    } else {
        (pad_view(v2, word.right_padding), Ok(()))
    }
}

/// Writes a word into a header: as it is if it is a plain word for the
/// mail type (as ascii, or as utf8 if it is not ascii), else as encoded
/// words if an encoded word context is given (errors of the header handle
/// are ignored there), else as a quoted string; with its padding before
/// and after.
pub fn do_encode_word(word: &Word, handle: &mut EncodeHeaderHandle, ecw_ctx: Option<
    EncodedWordContext,
>) -> (r: Result<(), EncodingError>)
    requires
        old(handle).wf(),
    ensures
        final(handle).wf(),
        (final(handle)@, r) == spec_encode_word(old(handle)@, *word, ecw_ctx),
{
    if let Some(pad) = &word.left_padding {
        pad.encode(handle);
    }
    let chars = str_chars(word.input.as_str());
    let mt = handle.mail_type();
    let mut ok = !(chars.len() >= 2 && chars[0] == '=' && chars[1] == '?');
    let mut i: usize = 0;
    while i < chars.len()
        invariant
            i <= chars.len(),
            ok == (!(chars@.len() >= 2 && chars@[0] == '=' && chars@[1] == '?') && forall|j: int|
                0 <= j < i ==> spec_is_atext(#[trigger] chars@[j], mt)),
        decreases chars.len() - i,
    {
        if !is_atext(chars[i], mt) {
            ok = false;
        }
        i = i + 1;
    }
    if ok {
        let written = if word.input.as_str().is_ascii() {
            proof {
                lemma_all_ascii_is_ascii_chars(word.input@);
            }
            handle.write_str(word.input.as_str())
        } else {
            proof {
                lemma_all_ascii_is_ascii_chars(word.input@);
                let k = choose|k: int| 0 <= k < word.input@.len() && !spec_is_ascii(
                    #[trigger] word.input@[k],
                );
                assert(spec_is_atext(chars@[k], mt));
            }
            handle.write_utf8(word.input.as_str())
        };
        match written {
            Ok(()) => {},
            Err(e) => return Err(e),
        }
    } else {
        match ecw_ctx {
            Some(ctx) => {
                EncodedWord::write_into(
                    handle,
                    word.input.as_str(),
                    EncodedWordEncoding::QuotedPrintable,
                    ctx,
                );
            },
            None => {
                match QuotedString::write_into(handle, word.input.as_str()) {
                    Ok(()) => {},
                    Err(e) => return Err(e),
                }
            },
        }
    }
    if let Some(pad) = &word.right_padding {
        pad.encode(handle);
    }
    Ok(())
}

} // verus!
