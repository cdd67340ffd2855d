use mail_core::codec::quote;
use mail_core::codec::quote::Quoted;
use mail_core::data::quoted::QuotedString;
use mail_core::data::simple_item::SimpleItem;
use mail_core::error::EncodingError;

#[test]
fn quote_simple() {
    let quoted = QuotedString::quote("tralala").unwrap();
    assert_eq!("\"tralala\"", quoted.as_item().as_str());
}

#[test]
fn quote_some_chars() {
    let quoted = QuotedString::quote("tr@al al\"a").unwrap();
    assert_eq!("\"tr@al al\\\"a\"", quoted.as_item().as_str());
}

#[test]
fn quote_ctl() {
    let res = QuotedString::quote("\x01");
    assert_eq!(false, res.is_ok());
}

#[test]
fn unquote_simple() {
    let quoted = QuotedString::parse(SimpleItem::from_string("\"simple\"".to_owned())).unwrap();
    assert_eq!("simple", quoted.unquote().as_str())
}

#[test]
fn unquote() {
    let quoted =
        QuotedString::parse(SimpleItem::from_string(r#""\ \\_\"<>""#.to_owned())).unwrap();
    assert_eq!(r#" \_"<>"#, quoted.unquote().as_str())
}

#[test]
fn end2end() {
    let samples = &["abc", "ab cd", "a \" v@d", r#""\ ""#];
    for sample in samples {
        assert_eq!(*sample, QuotedString::quote(sample).unwrap().unquote().as_str())
    }
}

#[test]
fn parse_rejects_unquoted() {
    let res = QuotedString::parse(SimpleItem::from_string("simple".to_owned()));
    assert_eq!(Err(EncodingError::Malformed), res.map(|q| q.into_string()));
}

#[test]
fn quote_keeps_ascii_tag() {
    assert!(QuotedString::quote("abc").unwrap().as_item().is_ascii());
    assert!(!QuotedString::quote("a→c").unwrap().as_item().is_ascii());
    assert!(!QuotedString::quote("a→c").unwrap().unquote().is_ascii());
}

#[test]
fn codec_quote_escapes_whitespace() {
    let q = quote::quote("a b\"").unwrap();
    assert_eq!(Quoted::Ascii("\"a\\ b\\\"\"".to_owned()), q);
    assert_eq!("a b\"", quote::unquote(&q));
    let q = quote::quote("→").unwrap();
    assert_eq!(Quoted::Utf8("\"→\"".to_owned()), q);
    assert_eq!(Err(EncodingError::NotQuotable('\x7f')), quote::quote("a\x7f"));
}
