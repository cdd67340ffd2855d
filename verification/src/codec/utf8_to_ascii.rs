//! Base64 for encoded words, and the ascii form of domains.
use vstd::prelude::*;

use crate::error::EncodingError;
use crate::grammar::all_ascii;
use crate::grammar::encoded_word::EncodedWordContext;

pub use crate::codec::idna::puny_code_domain;

verus! {

/// The error type of `base64::decode_config`.
#[verifier::external_type_specification]
#[verifier::external_body]
pub struct ExBase64DecodeError(base64::DecodeError);

/// The bytes `base64::decode_config` decodes `input` to with the standard
/// alphabet, padding and whitespace skipped; `None` where it fails.
pub uninterp spec fn base64_decoded(input: Seq<char>) -> Option<Seq<u8>>;

/// The text `base64::encode_config` encodes the UTF-8 bytes of `input` to
/// with the standard alphabet, padding and no line wrapping.
pub uninterp spec fn base64_encoded(input: Seq<char>) -> Seq<char>;

/// Calls `base64::decode_config` (standard alphabet, padded, whitespace
/// skipped, no line wrapping).
///
/// Trusted: the result is `base64_decoded` of the input, and decoding
/// what `base64::encode_config` made of a text (same configuration) gives
/// back the text's UTF-8 bytes (the crate's round trip).
#[verifier::external_body]
fn base64_decode_standard(input: &str) -> (r: Result<Vec<u8>, base64::DecodeError>)
    ensures
        match r {
            Ok(v) => base64_decoded(input@) == Some(v@),
            Err(_) => base64_decoded(input@) is None,
        },
        r is Err ==> forall|t: Seq<char>| input@ != #[trigger] base64_encoded(t),
        r matches Ok(v) ==> forall|t: Seq<char>|
            input@ == #[trigger] base64_encoded(t) ==> v@ == vstd::utf8::encode_utf8(t),
{
    base64::decode_config(
        input,
        base64::Config::new(base64::CharacterSet::Standard, true, true, base64::LineWrap::NoWrap),
    )
}

/// Calls `base64::encode_config` (standard alphabet, padded, no line
/// wrapping).
///
/// Trusted: the result is `base64_encoded` of the input and ascii (the
/// crate writes chars of its base64 alphabet and `=` only).
#[verifier::external_body]
fn base64_encode_standard(input: &str) -> (r: String)
    ensures
        r@ == base64_encoded(input@),
        all_ascii(r@),
{
    base64::encode_config(
        input,
        base64::Config::new(base64::CharacterSet::Standard, true, true, base64::LineWrap::NoWrap),
    )
}

/// Decodes the base64 text of an encoded word.
///
/// Fails with `InvalidBase64` if `input` is not valid base64. Decoding
/// what `base64_encoded_for_encoded_word` made of a text gives back the
/// UTF-8 bytes of the text.
pub fn base64_decode_for_encoded_word(input: &str) -> (r: Result<Vec<u8>, EncodingError>)
    ensures
        match base64_decoded(input@) {
            Some(v) => r matches Ok(d) && d@ == v,
            None => r == Err::<Vec<u8>, EncodingError>(EncodingError::InvalidBase64),
        },
        forall|t: Seq<char>|
            input@ == #[trigger] base64_encoded(t) ==> (r matches Ok(d) && d@
                == vstd::utf8::encode_utf8(t)),
{
    match base64_decode_standard(input) {
        Ok(v) => Ok(v),
        Err(_) => Err(EncodingError::InvalidBase64),
    }
}

/// Encodes the UTF-8 bytes of `input` as base64 for an encoded word.
pub fn base64_encoded_for_encoded_word(input: &str, _ctx: EncodedWordContext) -> (r: String)
    ensures
        r@ == base64_encoded(input@),
        all_ascii(r@),
{
    base64_encode_standard(input)
}

} // verus!
