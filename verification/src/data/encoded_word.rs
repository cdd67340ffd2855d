//! Writing text as encoded words (RFC 2047) into a header.
use vstd::prelude::*;

use crate::codec::encoder::{EncodeHeaderHandle, HeaderView, buffer_ascii};
use crate::codec::quoted_printable::{
    emit_ops, header_encode_utf8, lemma_emit_ops_ascii, lemma_q_payloads_ascii, pack_words, q_encode,
    utf8_chunks,
};
use crate::codec::utf8_to_ascii::{base64_encoded, base64_encoded_for_encoded_word};
use crate::codec::writer::{
    EncodedWordEncoding, EncodedWordWriter, Write, WriterWrapper, char_ops, end_ops,
    lemma_replay_ascii, replay, start_ops,
};
use crate::grammar::encoded_word::{ECW_SEP_OVERHEAD, EncodedWordContext, MAX_ECW_LEN};

verus! {

/// The payloads of the "Q" encoded words `s` is written as: the encoded
/// UTF-8 bytes of each char, as many chars in one word as fit into `m`
/// chars.
pub open spec fn q_payloads(s: Seq<char>, m: nat) -> Seq<Seq<char>> {
    pack_words(utf8_chunks(s).map_values(|c: Seq<u8>| q_encode(c)), m)
}

/// The writes of `s` as encoded words with the encoding `encoding` into a
/// writer whose words use the encoding `enc` and hold payloads of at most
/// `m` chars: with "Q" as many words as needed, with base64 one word.
pub open spec fn encode_ops(
    s: Seq<char>,
    encoding: EncodedWordEncoding,
    enc: EncodedWordEncoding,
    m: nat,
) -> Seq<Write<char>> {
    match encoding {
        EncodedWordEncoding::QuotedPrintable => emit_ops(enc, q_payloads(s, m)),
        EncodedWordEncoding::Base64 => start_ops(enc) + char_ops(base64_encoded(s)) + end_ops(),
    }
}

/// The writes of `s` as encoded words with the charset `utf8`.
pub open spec fn encoded_word_ops(s: Seq<char>, encoding: EncodedWordEncoding) -> Seq<Write<char>> {
    encode_ops(s, encoding, encoding, (MAX_ECW_LEN - ECW_SEP_OVERHEAD - 5) as nat)
}

impl EncodedWordEncoding {
    /// Writes the utf8 text `input` into `out` as encoded words: with "Q"
    /// split into as many words as needed (only between chars), with
    /// base64 as one word.
    pub fn encode<O: EncodedWordWriter>(&self, input: &str, out: &mut O)
        requires
            old(out).writer_ok(),
            old(out).words().len() > 0,
            old(out).spec_max_payload_len() >= 12,
        ensures
            final(out).writer_ok(),
            final(out).log() == old(out).log() + encode_ops(
                input@,
                *self,
                old(out).spec_encoding(),
                old(out).spec_max_payload_len(),
            ),
            final(out).origin() == old(out).origin(),
            final(out).spec_charset() == old(out).spec_charset(),
            final(out).spec_encoding() == old(out).spec_encoding(),
            final(out).spec_max_payload_len() == old(out).spec_max_payload_len(),
    {
        match self {
            EncodedWordEncoding::QuotedPrintable => {
                header_encode_utf8(input, out);
            },
            EncodedWordEncoding::Base64 => {
                let ghost l0 = out.log();
                out.write_ecw_start();
                let encoded = base64_encoded_for_encoded_word(input, EncodedWordContext::Text);
                out.write_str(encoded.as_str());
                out.write_ecw_end();
                proof {
                    assert(out.log() =~= l0 + (start_ops(old(out).spec_encoding()) + char_ops(
                        base64_encoded(input@),
                    ) + end_ops()));
                }
            },
        }
    }
}

/// Writing `s` as encoded words into a header in state `v`.
pub open spec fn spec_encoded_word_write(v: HeaderView, s: Seq<char>, encoding: EncodedWordEncoding) -> HeaderView {
    replay(v, "utf8"@, encoded_word_ops(s, encoding))
}

/// Text written as encoded words.
pub struct EncodedWord;

impl EncodedWord {
    /// Writes `input` into `handle` as encoded words with the charset
    /// `utf8` and the given encoding, separated by folding whitespace.
    ///
    /// With the "Q" encoding the text is split into as many encoded words
    /// as the length limit of an encoded word needs; with base64 it is
    /// written as one. Errors of the header handle (such as a too long
    /// line) are ignored.
    pub fn write_into(
        handle: &mut EncodeHeaderHandle,
        input: &str,
        encoding: EncodedWordEncoding,
        ctx: EncodedWordContext,
    )
        requires
            old(handle).wf(),
        ensures
            final(handle).wf(),
            final(handle)@ == spec_encoded_word_write(old(handle)@, input@, encoding),
    {
        let mt = handle.mail_type();
        let mut owned = EncodeHeaderHandle::new(mt, Vec::new(), Vec::new());
        std::mem::swap(handle, &mut owned);
        let charset = "utf8";
        proof {
            reveal_strlit("utf8");
            assert(crate::grammar::spec_is_ascii(charset@[0]));
        }
        let mut writer = WriterWrapper::new(charset, encoding, owned);
        encoding.encode(input, &mut writer);
        proof {
            assert(Seq::<Write<char>>::empty() + encoded_word_ops(input@, encoding)
                =~= encoded_word_ops(input@, encoding));
        }
        let mut back = writer.into_handle();
        std::mem::swap(handle, &mut back);
    }
}

/// Writing text as "Q" encoded words writes ascii only, whatever the text.
pub proof fn lemma_q_encoded_word_write_ascii(v: HeaderView, s: Seq<char>)
    requires
        buffer_ascii(v),
    ensures
        buffer_ascii(spec_encoded_word_write(v, s, EncodedWordEncoding::QuotedPrintable)),
{
    let m = (MAX_ECW_LEN - ECW_SEP_OVERHEAD - 5) as nat;
    let ps = q_payloads(s, m);
    lemma_q_payloads_ascii(utf8_chunks(s), m, ps);
    lemma_emit_ops_ascii(EncodedWordEncoding::QuotedPrintable, ps);
    reveal_strlit("utf8");
    assert(crate::grammar::spec_is_ascii('u') && crate::grammar::spec_is_ascii('t')
        && crate::grammar::spec_is_ascii('f') && crate::grammar::spec_is_ascii('8'));
    lemma_replay_ascii(v, "utf8"@, encoded_word_ops(s, EncodedWordEncoding::QuotedPrintable));
}

} // verus!
