use std::borrow::Cow;

use mail_core::codec::quoted_string::{quote, quote_if_needed};
use mail_core::error::EncodingError;
use mail_core::grammar::{is_qtext, is_quoted_string, is_token_char, is_vchar, MailType};

#[test]
fn quote_ascii() {
    let mti = MailType::Internationalized;
    let data = &[
        ("this is simple", "\"this is simple\""),
        ("also\tsimple", "\"also\tsimple\""),
        ("with quotes\"<-", "\"with quotes\\\"<-\""),
        ("with slash\\<-", "\"with slash\\\\<-\""),
    ];
    for &(unquoted, quoted) in data.iter() {
        let (mail_type, got_quoted) =
            quote_if_needed(unquoted, |ch| is_vchar(ch, mti), mti).unwrap();
        assert_eq!(MailType::Ascii, mail_type);
        assert_eq!(quoted, &*got_quoted);
    }
}

#[test]
fn quote_utf8() {
    let data = &[
        ("has → uft8", "\"has → uft8\""),
        ("also\t→\tsimple", "\"also\t→\tsimple\""),
        ("with→quotes\"<-", "\"with→quotes\\\"<-\""),
        ("with→slash\\<-", "\"with→slash\\\\<-\""),
    ];
    for &(unquoted, quoted) in data.iter() {
        let res = quote_if_needed(unquoted, |_| false, MailType::Internationalized);
        let (mail_type, got_quoted) = res.unwrap();
        assert_eq!(MailType::Internationalized, mail_type);
        assert_eq!(quoted, &*got_quoted);
    }
}

#[test]
fn no_quotation_needed_ascii() {
    let (mt, res) = quote_if_needed("simple", is_token_char, MailType::Ascii).unwrap();
    assert_eq!(MailType::Ascii, mt);
    assert_eq!("simple", &*res);
    let is_borrowed = if let Cow::Borrowed(_) = res { true } else { false };
    assert_eq!(true, is_borrowed);
}

#[test]
fn no_quotation_needed_utf8() {
    let mt = MailType::Internationalized;
    let (mt, res) = quote_if_needed("simp↓e", |ch| is_qtext(ch, mt), mt).unwrap();
    assert_eq!(MailType::Internationalized, mt);
    assert_eq!("simp↓e", &*res);
    let is_borrowed = if let Cow::Borrowed(_) = res { true } else { false };
    assert_eq!(true, is_borrowed);
}

#[test]
fn no_del() {
    assert!(quote_if_needed("\x7F", |_| false, MailType::Ascii).is_err());
}

#[test]
fn no_ctl() {
    let mut text = String::with_capacity(1);
    let bad_chars = (b'\0'..b' ').filter(|&b| b != b'\t').map(|byte| byte as char);
    for char in bad_chars {
        text.clear();
        text.insert(0, char);
        assert!(quote_if_needed(&*text, |_| false, MailType::Ascii).is_err());
    }
}

#[test]
fn quote_always_quotes() {
    assert_eq!((MailType::Ascii, "\"simple\"".to_owned()), quote("simple").unwrap());
}

#[test]
fn using_valid_without_quoting() {
    let data = &[
        ("not@a-token", "\"not@a-token\"", true),
        ("not a-token", "\"not a-token\"", true),
        ("a-token-it-is", "a-token-it-is", false),
    ];
    for &(unquoted, exp_res, quoted) in data.iter() {
        let (mt, res) = quote_if_needed(unquoted, is_token_char, MailType::Ascii).unwrap();
        assert_eq!(MailType::Ascii, mt);
        if quoted {
            let owned: Cow<str> = Cow::Owned(exp_res.to_owned());
            assert_eq!(owned, res);
        } else {
            assert_eq!(Cow::Borrowed(exp_res), res);
        }
    }
}

#[test]
fn quotes_utf8() {
    let mt = MailType::Internationalized;
    let res = quote_if_needed("l↓r", is_token_char, mt);
    let res = res.unwrap();
    let was_quoted = if let &Cow::Owned(..) = &res.1 { true } else { false };
    assert_eq!(true, was_quoted);
}

#[test]
fn error_with_quotable_utf8_but_ascii_only() {
    let res = quote_if_needed("l→r", |ch| is_qtext(ch, MailType::Internationalized), MailType::Ascii);
    assert!(res.is_err());
}

#[test]
fn error_with_quotable_utf8_but_ascii_only_2() {
    let res = quote_if_needed("l→r", |ch| is_qtext(ch, MailType::Ascii), MailType::Ascii);
    assert!(res.is_err());
}

#[test]
fn quote_of_empty_input_is_empty_quoted_string() {
    assert_eq!((MailType::Ascii, "\"\"".to_owned()), quote("").unwrap());
}

#[test]
fn quote_reports_first_unquotable_char() {
    assert_eq!(Err(EncodingError::NotQuotable('\x01')), quote("a\x01b\x02"));
    assert_eq!(
        Err(EncodingError::NotAscii('→')),
        quote_if_needed("a b→\x01", |_| false, MailType::Ascii)
    );
    assert_eq!(
        Err(EncodingError::NotQuotable('\x01')),
        quote_if_needed("a\x01→", |_| false, MailType::Ascii)
    );
}

#[test]
fn quoted_output_is_a_quoted_string() {
    let mti = MailType::Internationalized;
    for input in ["a b", "also\tsimple", "q\"uote", "back\\slash", "ü b"] {
        match quote_if_needed(input, |_| false, mti).unwrap() {
            (_, Cow::Owned(q)) => assert!(is_quoted_string(&q, mti), "{}", q),
            (_, Cow::Borrowed(_)) => panic!("expected quoting"),
        }
    }
    assert!(is_quoted_string("\"a b\"", MailType::Ascii));
    assert!(is_quoted_string("\"a\tb\"", MailType::Ascii));
    assert!(!is_quoted_string("\"a\"b\"", MailType::Ascii));
    assert!(!is_quoted_string("\"a\rb\"", MailType::Ascii));
}
