use mail_core::char_validators;
use mail_core::char_validators::quoted_word::is_quoted_word;
use mail_core::components::transfer_encoding::{Token, TransferEncoding};
use mail_core::error::EncodingError;
use mail_core::grammar;
use mail_core::grammar::encoded_word::{
    is_encoded_word, try_parse_encoded_word_parts, EncodedWordContext,
};
use mail_core::grammar::MailType;

#[test]
fn encoded_word_parts() {
    assert_eq!(
        try_parse_encoded_word_parts("=?utf8?Q?a=3Db?=", EncodedWordContext::Text),
        Ok(("utf8", "Q", "a=3Db"))
    );
    assert_eq!(
        try_parse_encoded_word_parts("=?utf8?Q?a b?=", EncodedWordContext::Text),
        Err(EncodingError::Malformed)
    );
    assert_eq!(
        try_parse_encoded_word_parts("=?utf8?Q?ab", EncodedWordContext::Text),
        Err(EncodingError::Malformed)
    );
    assert!(is_encoded_word("=?utf8?B?YeKGkWI=?=", EncodedWordContext::Text));
    assert!(!is_encoded_word("utf8?B?abc?=", EncodedWordContext::Text));
}

#[test]
fn encoded_word_contexts() {
    assert!(EncodedWordContext::Text.char_validator('('));
    assert!(!EncodedWordContext::Comment.char_validator('('));
    assert!(!EncodedWordContext::Phrase.char_validator('('));
    assert!(EncodedWordContext::Phrase.char_validator('a'));
}

#[test]
fn char_validator_encoded_words() {
    assert_eq!(
        char_validators::encoded_word::try_parse_encoded_word_parts(
            "=?utf8?Q?abc?=",
            char_validators::encoded_word::EncodedWordContext::Text
        ),
        Ok(("utf8", "Q", "abc"))
    );
    assert!(char_validators::encoded_word::is_encoded_word(
        "=?utf8?Q?abc?=",
        char_validators::encoded_word::EncodedWordContext::Text
    ));
    assert!(!char_validators::encoded_word::is_encoded_word(
        "=?utf8?Q?abc",
        char_validators::encoded_word::EncodedWordContext::Text
    ));
    assert!(!char_validators::encoded_word::is_encoded_word(
        "=?utf8?Q",
        char_validators::encoded_word::EncodedWordContext::Text
    ));
}

#[test]
fn quoted_words() {
    // a space has to be escaped in a quoted word
    assert!(!is_quoted_word("\"a b\"", char_validators::MailType::Ascii));
    assert!(is_quoted_word("\"a\\ b\"", char_validators::MailType::Ascii));
    assert!(is_quoted_word("\"a\\\"b\"", char_validators::MailType::Ascii));
    assert!(!is_quoted_word("\"ä\"", char_validators::MailType::Ascii));
    assert!(is_quoted_word("\"ä\"", char_validators::MailType::Internationalized));
    assert!(!is_quoted_word("\"ab", char_validators::MailType::Ascii));
}

#[test]
fn char_classes() {
    assert!(grammar::is_atext('a', MailType::Ascii));
    assert!(!grammar::is_atext('@', MailType::Ascii));
    assert!(!grammar::is_atext('ä', MailType::Ascii));
    assert!(grammar::is_atext('ä', MailType::Internationalized));
    assert!(grammar::is_dtext('a', MailType::Ascii));
    assert!(!grammar::is_dtext('[', MailType::Ascii));
    assert!(grammar::is_special('.'));
    assert!(grammar::is_tspecial('='));
    assert!(!grammar::is_tspecial('.'));
    assert!(char_validators::MailType::Internationalized.supports_utf8());
    assert!(!char_validators::MailType::Ascii.supports_utf8());
}

#[test]
fn transfer_encoding_names() {
    assert_eq!(TransferEncoding::_7Bit.name(), "7bit");
    assert_eq!(TransferEncoding::_8Bit.name(), "8bit");
    assert_eq!(TransferEncoding::Binary.name(), "binary");
    assert_eq!(TransferEncoding::QuotedPrintable.name(), "quoted-printable");
    assert_eq!(TransferEncoding::Base64.name(), "base64");
    let x = Token::from_ascii("x-custom").unwrap();
    assert!(x.is_x_token());
    assert_eq!(TransferEncoding::Other(x).name(), "x-custom");
    assert!(Token::from_ascii("nö").is_none());
    assert!(!Token::from_ascii("ab").unwrap().is_x_token());
}
