//! The "Q" encoding of encoded words (RFC 2047) for header text.
use vstd::prelude::*;

use crate::codec::writer::{
    EncodedWordEncoding, EncodedWordWriter, Write, append_last, char_ops, ecw_prefix, end_ops,
    lemma_char_ops_ascii, lemma_ops_ascii_concat, lemma_start_end_ops_ascii, ops_ascii,
    start_ops,
};
use crate::grammar::encoded_word::{
    ECW_SEP_OVERHEAD, EncodedWordContext, MAX_ECW_LEN, is_encoded_word_form,
    lemma_encoded_word_parts_form, spec_encoded_word_parts, spec_is_ew_token_char,
    spec_valid_char_in_ec_in_phrase,
};
use crate::grammar::spec_is_ascii;
use crate::utils::str_chars;

verus! {

/// Bytes written as they are; all others are written as `=XX`. These
/// are safe in every header context (` `, `\t`, `?`, `=`, `(`, `)`, `"`,
/// CR and LF are always encoded).
pub open spec fn is_q_safe(b: u8) -> bool {
    b == 0x21 || b == 0x2A || b == 0x2B || b == 0x2D || b == 0x2F || b == 0x5F || (0x30 <= b
        && b <= 0x39) || (0x41 <= b && b <= 0x5A) || (0x61 <= b && b <= 0x7A)
}

/// The upper case hex digit of `n` (`n < 16`).
pub open spec fn hex_digit(n: u8) -> char {
    if n < 10 {
        ((48 + n) as u8) as char
    } else {
        ((55 + n) as u8) as char
    }
}

/// How one byte is written in the "Q" encoding.
pub open spec fn q_encode_byte(b: u8) -> Seq<char> {
    if is_q_safe(b) {
        seq![b as char]
    } else {
        seq!['=', hex_digit(b / 16), hex_digit(b % 16)]
    }
}

/// How bytes are written in the "Q" encoding.
pub open spec fn q_encode(bytes: Seq<u8>) -> Seq<char>
    decreases bytes.len(),
{
    if bytes.len() == 0 {
        Seq::empty()
    } else {
        q_encode(bytes.drop_last()) + q_encode_byte(bytes.last())
    }
}

/// The encoded chunks.
pub open spec fn encoded_chunks(input: Seq<Vec<u8>>) -> Seq<Seq<char>> {
    input.map_values(|c: Vec<u8>| q_encode(c@))
}

/// The payloads of the encoded words: chunk after chunk, a new word being
/// started when a chunk does not fit into `m` chars of the current one.
pub open spec fn pack_words(chunks: Seq<Seq<char>>, m: nat) -> Seq<Seq<char>>
    decreases chunks.len(),
{
    if chunks.len() == 0 {
        seq![Seq::empty()]
    } else {
        let p = pack_words(chunks.drop_last(), m);
        let c = chunks.last();
        if p.last().len() + c.len() > m {
            p.push(c)
        } else {
            p.update(p.len() - 1, p.last() + c)
        }
    }
}

/// The words `ws` after writing encoded words with the payloads `ps`,
/// the last one not yet closed by `?=`.
pub open spec fn emit_open(ws: Seq<Seq<char>>, prefix: Seq<char>, ps: Seq<Seq<char>>) -> Seq<
    Seq<char>,
>
    decreases ps.len(),
{
    if ps.len() <= 1 {
        append_last(ws, prefix + ps[0])
    } else {
        append_last(emit_open(ws, prefix, ps.drop_last()), seq!['?', '=']).push(prefix + ps.last())
    }
}

/// The words `ws` after writing encoded words with the payloads `ps`.
pub open spec fn emit_words(ws: Seq<Seq<char>>, prefix: Seq<char>, ps: Seq<Seq<char>>) -> Seq<
    Seq<char>,
> {
    append_last(emit_open(ws, prefix, ps), seq!['?', '='])
}

/// The writes of encoded words with the payloads `ps`, the last one not
/// yet closed by `?=`.
pub open spec fn emit_open_ops(enc: EncodedWordEncoding, ps: Seq<Seq<char>>) -> Seq<Write<char>>
    decreases ps.len(),
{
    if ps.len() <= 1 {
        start_ops(enc) + char_ops(ps[0])
    } else {
        emit_open_ops(enc, ps.drop_last()) + end_ops() + seq![Write::Sep] + start_ops(enc)
            + char_ops(ps.last())
    }
}

/// The writes of encoded words with the payloads `ps`.
pub open spec fn emit_ops(enc: EncodedWordEncoding, ps: Seq<Seq<char>>) -> Seq<Write<char>> {
    emit_open_ops(enc, ps) + end_ops()
}

proof fn lemma_char_ops_concat(a: Seq<char>, b: Seq<char>)
    ensures
        char_ops(a + b) == char_ops(a) + char_ops(b),
{
    assert(char_ops(a + b) =~= char_ops(a) + char_ops(b));
}

proof fn lemma_emit_open_ops_extend(enc: EncodedWordEncoding, ps: Seq<Seq<char>>, c: Seq<char>)
    requires
        ps.len() > 0,
    ensures
        emit_open_ops(enc, ps.update(ps.len() - 1, ps.last() + c)) == emit_open_ops(enc, ps)
            + char_ops(c),
{
    let qs = ps.update(ps.len() - 1, ps.last() + c);
    lemma_char_ops_concat(ps.last(), c);
    if ps.len() <= 1 {
        assert(qs[0] == ps[0] + c);
        assert(emit_open_ops(enc, qs) =~= emit_open_ops(enc, ps) + char_ops(c));
    } else {
        assert(qs.drop_last() =~= ps.drop_last());
        assert(qs.last() == ps.last() + c);
        assert(emit_open_ops(enc, qs) =~= emit_open_ops(enc, ps) + char_ops(c));
    }
}

/// The hex digit of the lower four bits of `half_byte`.
pub fn lower_nibble_to_hex(half_byte: u8) -> (r: char)
    ensures
        r == hex_digit(half_byte % 16),
        spec_is_ascii(r),
{
    let n = half_byte & 0x0F;
    assert(n == half_byte % 16) by (bit_vector)
        requires
            n == half_byte & 0x0F,
    ;
    if n < 10 {
        (48 + n) as char
    } else {
        (55 + n) as char
    }
}

proof fn lemma_pack_words_bounds(chunks: Seq<Seq<char>>, m: nat)
    requires
        forall|k: int| 0 <= k < chunks.len() ==> (#[trigger] chunks[k]).len() <= m,
    ensures
        pack_words(chunks, m).len() > 0,
        pack_words(chunks, m).last().len() <= m,
    decreases chunks.len(),
{
    if chunks.len() > 0 {
        assert forall|k: int| 0 <= k < chunks.drop_last().len() implies (
        #[trigger] chunks.drop_last()[k]).len() <= m by {
            assert(chunks.drop_last()[k] == chunks[k]);
        }
        lemma_pack_words_bounds(chunks.drop_last(), m);
        assert(chunks.last() == chunks[chunks.len() - 1]);
    }
}

proof fn lemma_emit_open_extend(ws: Seq<Seq<char>>, prefix: Seq<char>, ps: Seq<Seq<char>>, c: Seq<char>)
    requires
        ws.len() > 0,
        ps.len() > 0,
    ensures
        emit_open(ws, prefix, ps.update(ps.len() - 1, ps.last() + c)) == append_last(
            emit_open(ws, prefix, ps),
            c,
        ),
        emit_open(ws, prefix, ps).len() > 0,
    decreases ps.len(),
{
    let qs = ps.update(ps.len() - 1, ps.last() + c);
    if ps.len() <= 1 {
        assert(qs[0] == ps[0] + c);
        let e = append_last(ws, prefix + ps[0]);
        assert(e.last() == ws.last() + (prefix + ps[0]));
        assert(ws.last() + (prefix + qs[0]) =~= (ws.last() + (prefix + ps[0])) + c);
        assert(emit_open(ws, prefix, qs) =~= append_last(emit_open(ws, prefix, ps), c));
    } else {
        assert(qs.drop_last() =~= ps.drop_last());
        lemma_emit_open_extend(ws, prefix, ps.drop_last(), Seq::empty());
        let x = append_last(emit_open(ws, prefix, ps.drop_last()), seq!['?', '=']);
        assert(emit_open(ws, prefix, ps) == x.push(prefix + ps.last()));
        assert(qs.last() == ps.last() + c);
        assert(emit_open(ws, prefix, qs) == x.push(prefix + qs.last()));
        assert(prefix + (ps.last() + c) =~= (prefix + ps.last()) + c);
        assert(x.push(prefix + ps.last()).last() == prefix + ps.last());
        assert(emit_open(ws, prefix, qs) =~= append_last(emit_open(ws, prefix, ps), c));
    }
}

proof fn lemma_emit_open_nonempty(ws: Seq<Seq<char>>, prefix: Seq<char>, ps: Seq<Seq<char>>)
    requires
        ws.len() > 0,
        ps.len() > 0,
    ensures
        emit_open(ws, prefix, ps).len() > 0,
{
    lemma_emit_open_extend(ws, prefix, ps, Seq::empty());
}

/// Writes `input` as encoded words with the "Q" encoding (RFC 2047).
///
/// `input` is a sequence of chunks (e.g. the bytes of one char each); a
/// new encoded word may start between two chunks but not inside one. A
/// byte which is not safe in every header context is written as `=XX`.
/// A new encoded word is started when the encoded chunk does not fit into
/// the current one; each encoded chunk must fit into an empty one.
pub fn header_encode<O: EncodedWordWriter>(input: &Vec<Vec<u8>>, out: &mut O)
    requires
        old(out).writer_ok(),
        old(out).words().len() > 0,
        forall|k: int|
            0 <= k < input@.len() ==> (#[trigger] encoded_chunks(input@)[k]).len()
                <= old(out).spec_max_payload_len(),
    ensures
        final(out).writer_ok(),
        final(out).words() == emit_words(
            old(out).words(),
            ecw_prefix(old(out).spec_charset(), old(out).spec_encoding()),
            pack_words(encoded_chunks(input@), old(out).spec_max_payload_len()),
        ),
        final(out).spec_charset() == old(out).spec_charset(),
        final(out).spec_encoding() == old(out).spec_encoding(),
        final(out).spec_max_payload_len() == old(out).spec_max_payload_len(),
        final(out).log() == old(out).log() + emit_ops(
            old(out).spec_encoding(),
            pack_words(encoded_chunks(input@), old(out).spec_max_payload_len()),
        ),
        final(out).origin() == old(out).origin(),
{
    let ghost w0 = out.words();
    let ghost l0 = out.log();
    let ghost enc = out.spec_encoding();
    let ghost prefix = ecw_prefix(out.spec_charset(), out.spec_encoding());
    let ghost m = out.spec_max_payload_len();
    let ghost chunks = encoded_chunks(input@);
    out.write_ecw_start();
    proof {
        assert(prefix + Seq::<char>::empty() =~= prefix);
        assert(chunks.take(0) =~= Seq::<Seq<char>>::empty());
        assert(emit_open(w0, prefix, pack_words(chunks.take(0), m)) == out.words());
        assert(pack_words(chunks.take(0), m) =~= seq![Seq::<char>::empty()]);
        assert(char_ops(Seq::<char>::empty()) =~= Seq::<Write<char>>::empty());
        assert(emit_open_ops(enc, pack_words(chunks.take(0), m)) =~= start_ops(enc));
    }
    let mut remaining = out.max_payload_len();
    let mut k: usize = 0;
    while k < input.len()
        invariant
            0 <= k <= input.len(),
            w0.len() > 0,
            chunks == encoded_chunks(input@),
            chunks.len() == input@.len(),
            forall|j: int| 0 <= j < chunks.len() ==> (#[trigger] chunks[j]).len() <= m,
            out.writer_ok(),
            out.spec_max_payload_len() == m,
            prefix == ecw_prefix(out.spec_charset(), out.spec_encoding()),
            out.spec_charset() == old(out).spec_charset(),
            out.spec_encoding() == old(out).spec_encoding(),
            m == old(out).spec_max_payload_len(),
            out.words() == emit_open(w0, prefix, pack_words(chunks.take(k as int), m)),
            enc == out.spec_encoding(),
            enc == old(out).spec_encoding(),
            l0 == old(out).log(),
            out.log() == l0 + emit_open_ops(enc, pack_words(chunks.take(k as int), m)),
            out.origin() == old(out).origin(),
            pack_words(chunks.take(k as int), m).len() > 0,
            remaining + pack_words(chunks.take(k as int), m).last().len() == m,
        decreases input.len() - k,
    {
        let chunk = &input[k];
        let mut buf: Vec<char> = Vec::new();
        let mut b: usize = 0;
        while b < chunk.len()
            invariant
                0 <= b <= chunk.len(),
                buf@ == q_encode(chunk@.take(b as int)),
                forall|j: int| 0 <= j < buf@.len() ==> spec_is_ascii(#[trigger] buf@[j]),
            decreases chunk.len() - b,
        {
            let byte = chunk[b];
            let ghost before = buf@;
            if byte == 0x21 || byte == 0x2A || byte == 0x2B || byte == 0x2D || byte == 0x2F || byte
                == 0x5F || (0x30 <= byte && byte <= 0x39) || (0x41 <= byte && byte <= 0x5A) || (0x61
                <= byte && byte <= 0x7A) {
                buf.push(byte as char);
            } else {
                buf.push('=');
                assert(byte >> 4 == byte / 16) by (bit_vector);
                buf.push(lower_nibble_to_hex(byte >> 4));
                buf.push(lower_nibble_to_hex(byte));
            }
            proof {
                assert(chunk@.take(b + 1).drop_last() =~= chunk@.take(b as int));
                assert(chunk@.take(b + 1).last() == byte);
                assert(buf@ =~= before + q_encode_byte(byte));
                assert forall|j: int| 0 <= j < buf@.len() implies spec_is_ascii(#[trigger] buf@[j]) by {
                    if j < before.len() {
                        assert(buf@[j] == before[j]);
                    }
                }
            }
            b = b + 1;
        }
        proof {
            assert(chunk@.take(b as int) =~= chunk@);
            assert(chunks[k as int] == q_encode(input@[k as int]@));
            assert(buf@ == chunks[k as int]);
            assert(chunks.take(k + 1).drop_last() =~= chunks.take(k as int));
            assert(chunks.take(k + 1).last() == chunks[k as int]);
            lemma_emit_open_nonempty(w0, prefix, pack_words(chunks.take(k as int), m));
        }
        let ghost p = pack_words(chunks.take(k as int), m);
        let ghost words_before = out.words();
        let new_word = buf.len() > remaining;
        if new_word {
            out.start_next_encoded_word();
            remaining = out.max_payload_len();
            proof {
                assert(Seq::<char>::empty() + buf@ =~= buf@);
            }
        }
        let ghost words_mid = out.words();
        let ghost log_mid = out.log();
        let mut j: usize = 0;
        proof {
            assert(words_mid.last() + buf@.take(0) =~= words_mid.last());
            assert(append_last(words_mid, buf@.take(0)) =~= words_mid);
            assert(char_ops(buf@.take(0)) =~= Seq::<Write<char>>::empty());
            assert(log_mid + Seq::<Write<char>>::empty() =~= log_mid);
        }
        while j < buf.len()
            invariant
                j <= buf.len(),
                words_mid.len() > 0,
                forall|i: int| 0 <= i < buf@.len() ==> spec_is_ascii(#[trigger] buf@[i]),
                out.writer_ok(),
                out.spec_max_payload_len() == m,
                out.spec_charset() == old(out).spec_charset(),
                out.spec_encoding() == old(out).spec_encoding(),
                out.words() == append_last(words_mid, buf@.take(j as int)),
                out.log() == log_mid + char_ops(buf@.take(j as int)),
                out.origin() == old(out).origin(),
                out.spec_encoding() == enc,
            decreases buf.len() - j,
        {
            proof {
                assert(spec_is_ascii(buf@[j as int]));
                assert(words_mid.last() + buf@.take(j + 1) =~= words_mid.last() + buf@.take(
                    j as int,
                ) + seq![buf@[j as int]]);
            }
            out.write_char(buf[j]);
            proof {
                assert(out.words() =~= append_last(words_mid, buf@.take(j + 1)));
                assert(char_ops(buf@.take(j + 1)) =~= char_ops(buf@.take(j as int)).push(
                    Write::Ascii(buf@[j as int]),
                ));
                assert(out.log() =~= log_mid + char_ops(buf@.take(j + 1)));
            }
            j = j + 1;
        }
        proof {
            assert(buf@.take(j as int) =~= buf@);
            let c = buf@;
            if new_word {
                assert(p.last().len() + c.len() > m);
                assert(pack_words(chunks.take(k + 1), m) == p.push(c));
                assert(p.push(c).drop_last() =~= p);
                assert(out.words() =~= emit_open(w0, prefix, p.push(c)));
                assert(p.push(c).last() == c);
                assert(out.log() =~= l0 + emit_open_ops(enc, p.push(c)));
            } else {
                assert(pack_words(chunks.take(k + 1), m) == p.update(p.len() - 1, p.last() + c));
                lemma_emit_open_extend(w0, prefix, p, c);
                lemma_emit_open_ops_extend(enc, p, c);
                assert(out.log() =~= l0 + emit_open_ops(enc, p.update(p.len() - 1, p.last() + c)));
            }
        }
        remaining = remaining - buf.len();
        k = k + 1;
    }
    proof {
        assert(chunks.take(k as int) =~= chunks);
        lemma_emit_open_nonempty(w0, prefix, pack_words(chunks, m));
    }
    out.write_ecw_end();
    proof {
        assert(out.log() =~= l0 + emit_ops(enc, pack_words(chunks, m)));
    }
}

/// The bytes of the UTF-8 encoding of `ch`.
pub(crate) fn char_utf8_bytes(ch: char) -> (r: Vec<u8>)
    ensures
        r@ == vstd::utf8::encode_scalar(ch as u32),
{
    let c: u32 = ch as u32;
    if c <= 0x7F {
        vec![(c & 0x7F) as u8]
    } else if c <= 0x7FF {
        vec![0xC0 | ((c >> 6) & 0x1F) as u8, 0x80 | (c & 0x3F) as u8]
    } else if c <= 0xFFFF {
        vec![0xE0 | ((c >> 12) & 0x0F) as u8, 0x80 | ((c >> 6) & 0x3F) as u8, 0x80 | (c & 0x3F) as u8]
    } else {
        vec![
            0xF0 | ((c >> 18) & 0x7) as u8,
            0x80 | ((c >> 12) & 0x3F) as u8,
            0x80 | ((c >> 6) & 0x3F) as u8,
            0x80 | (c & 0x3F) as u8,
        ]
    }
}

/// The UTF-8 bytes of each char of `s`, one chunk per char.
pub open spec fn utf8_chunks(s: Seq<char>) -> Seq<Seq<u8>> {
    s.map_values(|c: char| vstd::utf8::encode_scalar(c as u32))
}

/// Writes `word` as encoded words with the "Q" encoding, splitting it
/// only between chars.
pub fn header_encode_utf8<O: EncodedWordWriter>(word: &str, writer: &mut O)
    requires
        old(writer).writer_ok(),
        old(writer).words().len() > 0,
        old(writer).spec_max_payload_len() >= 12,
    ensures
        final(writer).writer_ok(),
        final(writer).words() == emit_words(
            old(writer).words(),
            ecw_prefix(old(writer).spec_charset(), old(writer).spec_encoding()),
            pack_words(
                utf8_chunks(word@).map_values(|c: Seq<u8>| q_encode(c)),
                old(writer).spec_max_payload_len(),
            ),
        ),
        final(writer).spec_charset() == old(writer).spec_charset(),
        final(writer).spec_encoding() == old(writer).spec_encoding(),
        final(writer).spec_max_payload_len() == old(writer).spec_max_payload_len(),
        final(writer).log() == old(writer).log() + emit_ops(
            old(writer).spec_encoding(),
            pack_words(
                utf8_chunks(word@).map_values(|c: Seq<u8>| q_encode(c)),
                old(writer).spec_max_payload_len(),
            ),
        ),
        final(writer).origin() == old(writer).origin(),
{
    let chars = str_chars(word);
    let mut chunks: Vec<Vec<u8>> = Vec::new();
    let mut i: usize = 0;
    while i < chars.len()
        invariant
            chars@ == word@,
            i <= chars.len(),
            chunks@.len() == i,
            forall|k: int| 0 <= k < i ==> (#[trigger] chunks@[k])@ == vstd::utf8::encode_scalar(
                chars@[k] as u32,
            ),
        decreases chars.len() - i,
    {
        chunks.push(char_utf8_bytes(chars[i]));
        i = i + 1;
    }
    proof {
        let m = writer.spec_max_payload_len();
        assert forall|k: int| 0 <= k < chunks@.len() implies (#[trigger] encoded_chunks(
            chunks@,
        )[k]).len() <= m by {
            lemma_q_encode_len(chunks@[k]@);
            lemma_encode_scalar_len(chars@[k] as u32);
        }
        assert(encoded_chunks(chunks@) =~= utf8_chunks(word@).map_values(
            |c: Seq<u8>| q_encode(c),
        ));
    }
    header_encode(&chunks, writer);
}

proof fn lemma_q_encode_len(bytes: Seq<u8>)
    ensures
        q_encode(bytes).len() <= 3 * bytes.len(),
    decreases bytes.len(),
{
    if bytes.len() > 0 {
        lemma_q_encode_len(bytes.drop_last());
    }
}

proof fn lemma_encode_scalar_len(v: u32)
    ensures
        vstd::utf8::encode_scalar(v).len() <= 4,
{
}

proof fn lemma_pack_words_all_fit(chunks: Seq<Seq<char>>, m: nat)
    requires
        forall|k: int| 0 <= k < chunks.len() ==> (#[trigger] chunks[k]).len() <= m,
    ensures
        forall|i: int|
            0 <= i < pack_words(chunks, m).len() ==> (#[trigger] pack_words(chunks, m)[i]).len()
                <= m,
    decreases chunks.len(),
{
    if chunks.len() > 0 {
        assert forall|k: int| 0 <= k < chunks.drop_last().len() implies (
        #[trigger] chunks.drop_last()[k]).len() <= m by {
            assert(chunks.drop_last()[k] == chunks[k]);
        }
        lemma_pack_words_all_fit(chunks.drop_last(), m);
        lemma_pack_words_bounds(chunks.drop_last(), m);
        assert(chunks.last() == chunks[chunks.len() - 1]);
    }
}

/// The encoded words written into a writer which holds one empty word:
/// one per payload, each the prefix, the payload and `?=`.
proof fn lemma_emit_open_fresh(prefix: Seq<char>, ps: Seq<Seq<char>>)
    requires
        ps.len() > 0,
    ensures
        emit_open(seq![Seq::<char>::empty()], prefix, ps).len() == ps.len(),
        forall|i: int|
            0 <= i < ps.len() ==> #[trigger] emit_open(seq![Seq::<char>::empty()], prefix, ps)[i]
                == prefix + ps[i] + (if i < ps.len() - 1 {
                seq!['?', '=']
            } else {
                Seq::<char>::empty()
            }),
    decreases ps.len(),
{
    let w0 = seq![Seq::<char>::empty()];
    if ps.len() <= 1 {
        assert(Seq::<char>::empty() + (prefix + ps[0]) =~= prefix + ps[0] + Seq::<char>::empty());
    } else {
        lemma_emit_open_fresh(prefix, ps.drop_last());
        let e = emit_open(w0, prefix, ps.drop_last());
        let x = append_last(e, seq!['?', '=']);
        assert forall|i: int| 0 <= i < ps.len() implies #[trigger] emit_open(w0, prefix, ps)[i]
            == prefix + ps[i] + (if i < ps.len() - 1 {
            seq!['?', '=']
        } else {
            Seq::<char>::empty()
        }) by {
            if i < ps.len() - 1 {
                assert(ps.drop_last()[i] == ps[i]);
                if i == ps.len() - 2 {
                    assert(x[i] == e[i] + seq!['?', '=']);
                    assert(e[i] == prefix + ps[i] + Seq::<char>::empty());
                    assert(prefix + ps[i] + Seq::<char>::empty() + seq!['?', '='] =~= prefix + ps[i]
                        + seq!['?', '=']);
                }
            } else {
                assert(prefix + ps.last() =~= prefix + ps[i] + Seq::<char>::empty());
            }
        }
    }
}

/// No encoded word which `header_encode` writes into a writer holding one
/// empty word is longer than `MAX_ECW_LEN` chars, when each encoded chunk
/// fits into the payload of one word.
pub proof fn lemma_encoded_words_fit(chunks: Seq<Seq<char>>, charset: Seq<char>, enc: EncodedWordEncoding)
    requires
        charset.len() + ECW_SEP_OVERHEAD + 1 <= MAX_ECW_LEN,
        forall|k: int|
            0 <= k < chunks.len() ==> (#[trigger] chunks[k]).len() <= MAX_ECW_LEN - ECW_SEP_OVERHEAD
                - charset.len() - 1,
    ensures
        ({
            let m = (MAX_ECW_LEN - ECW_SEP_OVERHEAD - charset.len() - 1) as nat;
            let ws = emit_words(seq![Seq::<char>::empty()], ecw_prefix(charset, enc), pack_words(chunks, m));
            forall|i: int| 0 <= i < ws.len() ==> (#[trigger] ws[i]).len() <= MAX_ECW_LEN
        }),
{
    let m = (MAX_ECW_LEN - ECW_SEP_OVERHEAD - charset.len() - 1) as nat;
    let prefix = ecw_prefix(charset, enc);
    let ps = pack_words(chunks, m);
    lemma_pack_words_bounds(chunks, m);
    lemma_pack_words_all_fit(chunks, m);
    lemma_emit_open_fresh(prefix, ps);
    let e = emit_open(seq![Seq::<char>::empty()], prefix, ps);
    let ws = emit_words(seq![Seq::<char>::empty()], prefix, ps);
    assert forall|i: int| 0 <= i < ws.len() implies (#[trigger] ws[i]).len() <= MAX_ECW_LEN by {
        assert(ps[i].len() <= m);
        assert(prefix.len() == charset.len() + 5);
        if i < ps.len() - 1 {
            assert(ws[i] == e[i]);
        } else {
            assert(ws[i] == e[i] + seq!['?', '=']);
        }
    }
}

/// All chars of `s` may appear in an encoded word in a phrase.
spec fn phrase_safe(s: Seq<char>) -> bool {
    forall|i: int| 0 <= i < s.len() ==> #[trigger] spec_valid_char_in_ec_in_phrase(s[i])
}

proof fn lemma_q_encode_phrase_safe(bytes: Seq<u8>)
    ensures
        phrase_safe(q_encode(bytes)),
    decreases bytes.len(),
{
    if bytes.len() > 0 {
        lemma_q_encode_phrase_safe(bytes.drop_last());
        let b = bytes.last();
        let e = q_encode_byte(b);
        if !is_q_safe(b) {
            assert(b / 16 < 16 && b % 16 < 16) by (nonlinear_arith);
        }
        assert(phrase_safe(e));
        let a = q_encode(bytes.drop_last());
        assert forall|i: int| 0 <= i < (a + e).len() implies #[trigger] spec_valid_char_in_ec_in_phrase(
            (a + e)[i],
        ) by {
            if i < a.len() {
                assert((a + e)[i] == a[i]);
            } else {
                assert((a + e)[i] == e[i - a.len()]);
            }
        }
    }
}

proof fn lemma_pack_words_nonempty(chunks: Seq<Seq<char>>, m: nat)
    ensures
        pack_words(chunks, m).len() > 0,
    decreases chunks.len(),
{
    if chunks.len() > 0 {
        lemma_pack_words_nonempty(chunks.drop_last(), m);
    }
}

proof fn lemma_pack_words_phrase_safe(chunks: Seq<Seq<char>>, m: nat)
    requires
        forall|k: int| 0 <= k < chunks.len() ==> phrase_safe(#[trigger] chunks[k]),
    ensures
        forall|i: int| 0 <= i < pack_words(chunks, m).len() ==> phrase_safe(
            #[trigger] pack_words(chunks, m)[i],
        ),
    decreases chunks.len(),
{
    if chunks.len() > 0 {
        assert forall|k: int| 0 <= k < chunks.drop_last().len() implies phrase_safe(
            #[trigger] chunks.drop_last()[k],
        ) by {
            assert(chunks.drop_last()[k] == chunks[k]);
        }
        lemma_pack_words_phrase_safe(chunks.drop_last(), m);
        lemma_pack_words_nonempty(chunks.drop_last(), m);
        let p = pack_words(chunks.drop_last(), m);
        let c = chunks.last();
        assert(phrase_safe(chunks[chunks.len() - 1]));
        let r = pack_words(chunks, m);
        if p.last().len() + c.len() > m {
            assert(r == p.push(c));
            assert forall|i: int| 0 <= i < r.len() implies phrase_safe(#[trigger] r[i]) by {
                if i < p.len() {
                    assert(r[i] == p[i]);
                }
            }
        } else {
            let joined = p.last() + c;
            assert(phrase_safe(p[p.len() - 1]));
            assert forall|i: int| 0 <= i < joined.len() implies #[trigger] spec_valid_char_in_ec_in_phrase(
                joined[i],
            ) by {
                if i < p.last().len() {
                    assert(joined[i] == p.last()[i]);
                } else {
                    assert(joined[i] == c[i - p.last().len()]);
                }
            }
            assert(r == p.update(p.len() - 1, joined));
            assert forall|i: int| 0 <= i < r.len() implies phrase_safe(#[trigger] r[i]) by {
                if i < p.len() - 1 {
                    assert(r[i] == p[i]);
                }
            }
        }
    }
}

/// Every encoded word which `header_encode` writes with the "Q" encoding
/// into a writer holding one empty word, with a charset of token chars,
/// is read back by the encoded word parser, in every context, as that
/// charset, `Q` and its payload.
pub proof fn lemma_encoded_words_parse_back(
    input: Seq<Vec<u8>>,
    charset: Seq<char>,
    m: nat,
    ctx: EncodedWordContext,
)
    requires
        forall|i: int| 0 <= i < charset.len() ==> #[trigger] spec_is_ew_token_char(charset[i]),
        forall|k: int| 0 <= k < input.len() ==> (#[trigger] encoded_chunks(input)[k]).len() <= m,
    ensures
        ({
            let ps = pack_words(encoded_chunks(input), m);
            let ws = emit_words(
                seq![Seq::<char>::empty()],
                ecw_prefix(charset, EncodedWordEncoding::QuotedPrintable),
                ps,
            );
            &&& ws.len() == ps.len()
            &&& forall|i: int|
                0 <= i < ws.len() ==> spec_encoded_word_parts(#[trigger] ws[i], ctx) == Some(
                    (charset, seq!['Q'], ps[i]),
                )
        }),
{
    let chunks = encoded_chunks(input);
    let ps = pack_words(chunks, m);
    let prefix = ecw_prefix(charset, EncodedWordEncoding::QuotedPrintable);
    assert forall|k: int| 0 <= k < chunks.len() implies phrase_safe(#[trigger] chunks[k]) by {
        lemma_q_encode_phrase_safe(input[k]@);
    }
    lemma_pack_words_phrase_safe(chunks, m);
    lemma_pack_words_bounds(chunks, m);
    lemma_emit_open_fresh(prefix, ps);
    let e = emit_open(seq![Seq::<char>::empty()], prefix, ps);
    let ws = emit_words(seq![Seq::<char>::empty()], prefix, ps);
    assert forall|i: int| 0 <= i < ws.len() implies spec_encoded_word_parts(#[trigger] ws[i], ctx)
        == Some((charset, seq!['Q'], ps[i])) by {
        let p = ps[i];
        assert(phrase_safe(p));
        assert forall|j: int| 0 <= j < p.len() implies #[trigger] ctx.spec_char_valid(p[j]) by {
            assert(spec_valid_char_in_ec_in_phrase(p[j]));
        }
        if i < ps.len() - 1 {
            assert(ws[i] == e[i]);
        } else {
            assert(ws[i] == e[i] + seq!['?', '=']);
        }
        assert(ws[i] =~= seq!['=', '?'] + charset + seq!['?'] + seq!['Q'] + seq!['?'] + p + seq![
            '?',
            '=',
        ]);
        assert(spec_is_ew_token_char('Q'));
        assert(is_encoded_word_form(ws[i], ctx, charset, seq!['Q'], p));
        lemma_encoded_word_parts_form(ws[i], ctx, charset, seq!['Q'], p);
    }
}

/// The payloads of "Q" encoded words are ascii, and there is one at least.
pub proof fn lemma_q_payloads_ascii(chunks: Seq<Seq<u8>>, m: nat, ps: Seq<Seq<char>>)
    requires
        ps == pack_words(chunks.map_values(|c: Seq<u8>| q_encode(c)), m),
    ensures
        ps.len() > 0,
        forall|i: int, j: int|
            0 <= i < ps.len() && 0 <= j < ps[i].len() ==> spec_is_ascii(#[trigger] ps[i][j]),
{
    let cs = chunks.map_values(|c: Seq<u8>| q_encode(c));
    assert forall|k: int| 0 <= k < cs.len() implies phrase_safe(#[trigger] cs[k]) by {
        lemma_q_encode_phrase_safe(chunks[k]);
    }
    lemma_pack_words_phrase_safe(cs, m);
    lemma_pack_words_nonempty(cs, m);
    assert forall|i: int, j: int| 0 <= i < ps.len() && 0 <= j < ps[i].len() implies spec_is_ascii(
        #[trigger] ps[i][j],
    ) by {
        assert(phrase_safe(ps[i]));
        assert(spec_valid_char_in_ec_in_phrase(ps[i][j]));
    }
}

/// The writes of encoded words with ascii payloads are ascii.
pub proof fn lemma_emit_ops_ascii(enc: EncodedWordEncoding, ps: Seq<Seq<char>>)
    requires
        ps.len() > 0,
        forall|i: int, j: int| 0 <= i < ps.len() && 0 <= j < ps[i].len() ==> spec_is_ascii(#[trigger] ps[i][j]),
    ensures
        ops_ascii(emit_open_ops(enc, ps)),
        ops_ascii(emit_ops(enc, ps)),
    decreases ps.len(),
{
    lemma_start_end_ops_ascii(enc);
    assert forall|j: int| 0 <= j < ps.last().len() implies spec_is_ascii(#[trigger] ps.last()[j]) by {
        assert(ps.last()[j] == ps[ps.len() - 1][j]);
    }
    lemma_char_ops_ascii(ps.last());
    if ps.len() <= 1 {
        assert(ps.last() == ps[0]);
        lemma_ops_ascii_concat(start_ops(enc), char_ops(ps[0]));
    } else {
        let q = ps.drop_last();
        assert forall|i: int, j: int| 0 <= i < q.len() && 0 <= j < q[i].len() implies spec_is_ascii(#[trigger] q[i][j]) by {
            assert(q[i] == ps[i]);
        }
        lemma_emit_ops_ascii(enc, q);
        let sep: Seq<Write<char>> = seq![Write::Sep];
        assert(ops_ascii(sep));
        lemma_ops_ascii_concat(emit_open_ops(enc, q), end_ops());
        lemma_ops_ascii_concat(emit_open_ops(enc, q) + end_ops(), sep);
        lemma_ops_ascii_concat(emit_open_ops(enc, q) + end_ops() + sep, start_ops(enc));
        lemma_ops_ascii_concat(emit_open_ops(enc, q) + end_ops() + sep + start_ops(enc), char_ops(ps.last()));
    }
    lemma_ops_ascii_concat(emit_open_ops(enc, ps), end_ops());
}

} // verus!
