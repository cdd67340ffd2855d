use mail_core::codec::encoder::{Encoder, VecBodyBuf};
use mail_core::codec::writer::{EncodedWordEncoding, VecWriter};
use mail_core::components::phrase::Phrase;
use mail_core::data::encoded_word::EncodedWord;
use mail_core::grammar::encoded_word::{try_parse_encoded_word_parts, EncodedWordContext};
use mail_core::grammar::MailType;

fn words_of(encoding: EncodedWordEncoding, input: &str) -> Vec<String> {
    let mut out = VecWriter::new("utf8", encoding);
    encoding.encode(input, &mut out);
    out.data().to_vec()
}

#[test]
fn encode_with_q() {
    assert_eq!(words_of(EncodedWordEncoding::QuotedPrintable, "a↑b"), vec!["=?utf8?Q?a=E2=86=91b?="]);
}

#[test]
fn encode_with_base64() {
    assert_eq!(words_of(EncodedWordEncoding::Base64, "a↑b"), vec!["=?utf8?B?YeKGkWI=?="]);
}

#[test]
fn write_into_header() {
    let mut encoder = Encoder::<VecBodyBuf>::new(MailType::Ascii);
    {
        let handle = encoder.encode_header_handle();
        EncodedWord::write_into(handle, "ö", EncodedWordEncoding::QuotedPrintable, EncodedWordContext::Text);
        handle.finish();
    }
    assert_eq!(encoder.into_string_lossy().unwrap(), "=?utf8?Q?=C3=B6?=\r\n");
}

#[test]
fn long_text_is_split_into_words() {
    let text = "ä".repeat(30);
    let words = words_of(EncodedWordEncoding::QuotedPrintable, &text);
    assert_eq!(words.len(), 3);
    for w in words.iter() {
        assert!(w.len() <= 75);
        assert!(w.starts_with("=?utf8?Q?"));
        assert!(w.ends_with("?="));
    }
}

#[test]
fn phrase_with_encoded_word() {
    let mut encoder = Encoder::<VecBodyBuf>::new(MailType::Ascii);
    {
        let handle = encoder.encode_header_handle();
        let phrase = Phrase::from_input("a↑b c").unwrap();
        assert!(phrase.encode(handle).is_ok());
        handle.finish();
    }
    assert_eq!(encoder.into_string_lossy().unwrap(), "=?utf8?Q?a=E2=86=91b?= c\r\n");
}

#[test]
fn phrase_in_internationalized_mail_is_not_encoded() {
    let mut encoder = Encoder::<VecBodyBuf>::new(MailType::Internationalized);
    {
        let handle = encoder.encode_header_handle();
        let phrase = Phrase::from_input("a↑b c").unwrap();
        assert!(phrase.encode(handle).is_ok());
        handle.finish();
    }
    assert_eq!(encoder.into_string_lossy().unwrap(), "a↑b c\r\n");
}

#[test]
fn written_words_parse_back() {
    let text = "ä↑ß".repeat(12);
    let words = words_of(EncodedWordEncoding::QuotedPrintable, &text);
    assert!(words.len() > 1);
    for w in words.iter() {
        for ctx in [EncodedWordContext::Phrase, EncodedWordContext::Text, EncodedWordContext::Comment] {
            let (charset, encoding, payload) = try_parse_encoded_word_parts(w, ctx).unwrap();
            assert_eq!(charset, "utf8");
            assert_eq!(encoding, "Q");
            assert_eq!(format!("=?utf8?Q?{}?=", payload), *w);
        }
    }
}
