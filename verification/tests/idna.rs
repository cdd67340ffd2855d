use mail_core::codec::idna::puny_code_domain;
use mail_core::codec::utf8_to_ascii;
use mail_core::grammar::encoded_word::EncodedWordContext;

#[test]
fn idna_idna_does_not_validate() {
    let domain = "this seems\0so;wrong";
    assert_eq!(domain.to_owned(), idna::domain_to_ascii(domain).unwrap());
}

#[test]
fn idna_nop_puny_code() {
    let domain = "is_ascii.notadomain";
    let encoded = puny_code_domain(domain).unwrap();
    assert_eq!("is_ascii.notadomain", &*encoded);
}

#[test]
fn idna_puny_code_ascii_mail() {
    let domain = "nöt_ascii.ü";
    let encoded = puny_code_domain(domain).unwrap();
    assert_eq!("xn--nt_ascii-n4a.xn--tda", &*encoded);
}

#[test]
fn utf8_to_ascii_idna_does_not_validate() {
    let domain = "this seems\0so;wrong";
    assert_eq!(domain.to_owned(), idna::domain_to_ascii(domain).unwrap());
}

#[test]
fn utf8_to_ascii_nop_puny_code() {
    let domain = "is_ascii.notadomain";
    let encoded = utf8_to_ascii::puny_code_domain(domain).unwrap();
    assert_eq!("is_ascii.notadomain", &*encoded);
}

#[test]
fn utf8_to_ascii_puny_code_ascii_mail() {
    let domain = "nöt_ascii.ü";
    let encoded = utf8_to_ascii::puny_code_domain(domain).unwrap();
    assert_eq!("xn--nt_ascii-n4a.xn--tda", &*encoded);
}

#[test]
fn base64_round_trip_for_encoded_words() {
    let encoded = utf8_to_ascii::base64_encoded_for_encoded_word("hy→", EncodedWordContext::Text);
    assert_eq!("aHnihpI=", encoded);
    assert_eq!(
        "hy→".as_bytes().to_vec(),
        utf8_to_ascii::base64_decode_for_encoded_word(&encoded).unwrap()
    );
    assert_eq!(
        Err(mail_core::error::EncodingError::InvalidBase64),
        utf8_to_ascii::base64_decode_for_encoded_word("a*b")
    );
}
