use mail_core::codec::encoder::Token::{MarkFWS, NowChar, NowStr, Text};
use mail_core::codec::encoder::{Encoder, VecBodyBuf};
use mail_core::components::cfws::{CFWS, FWS};
use mail_core::components::disposition::{Disposition, DispositionKind, FileMeta};
use mail_core::components::email::{Domain, Email, LocalPart};
use mail_core::components::header_name::HeaderName;
use mail_core::components::unstructured::Unstructured;
use mail_core::components::word::{do_encode_word, Word};
use mail_core::error::EncodingError;
use mail_core::grammar::encoded_word::EncodedWordContext;
use mail_core::grammar::MailType;
use mail_core::headers;

#[test]
fn test_from_str() {
    assert!(Disposition::try_from("Inline").is_ok());
    assert!(Disposition::try_from("InLine").is_ok());
    assert!(Disposition::try_from("Attachment").is_ok());

    assert!(Disposition::try_from("In line").is_err());
}

#[test]
fn disposition_kinds() {
    assert_eq!(Disposition::try_from("inline").unwrap().kind(), DispositionKind::Inline);
    assert_eq!(Disposition::try_from("ATTACHMENT").unwrap().kind(), DispositionKind::Attachment);
    assert_eq!(Disposition::inline().kind(), DispositionKind::Inline);
    assert_eq!(Disposition::attachment().kind(), DispositionKind::Attachment);
}

#[test]
fn disposition_encode() {
    let mut encoder = Encoder::<VecBodyBuf>::new(MailType::Ascii);
    {
        let handle = encoder.encode_header_handle();
        assert!(Disposition::attachment().encode(handle).is_ok());
        handle.finish();
    }
    let text = encoder.into_string_lossy().unwrap();
    assert_eq!(text, "attachment\r\n");
}

#[test]
fn email_from_input() {
    let email = Email::from_input("abc@de.fg").unwrap();
    assert_eq!(
        Email {
            local_part: LocalPart::from_input("abc"),
            domain: Domain::from_input("de.fg").unwrap()
        },
        email
    )
}

#[test]
fn email_without_at_fails() {
    assert_eq!(Email::from_input("abc.de.fg"), Err(EncodingError::Malformed));
}

#[test]
fn email_with_bad_domain_fails() {
    assert_eq!(Email::from_input("abc@de..fg"), Err(EncodingError::Malformed));
    assert_eq!(Email::from_input("abc@.de"), Err(EncodingError::Malformed));
}

#[test]
fn email_splits_at_first_at() {
    // the domain "b@c" holds an `@`, which is not atext
    assert_eq!(Email::from_input("a@b@c"), Err(EncodingError::Malformed));
}

#[test]
fn domain_checks() {
    assert_eq!(Domain::check_domain("bad.at.domain"), Ok(MailType::Ascii));
    assert_eq!(Domain::check_domain("dömain"), Ok(MailType::Internationalized));
    assert_eq!(Domain::check_domain("[1.2.3.4]"), Ok(MailType::Ascii));
    assert_eq!(Domain::check_domain("[127.0.0.1]"), Ok(MailType::Ascii));
    assert_eq!(Domain::check_domain("[a[b]"), Err(EncodingError::Malformed));
    assert_eq!(Domain::check_domain("a b"), Err(EncodingError::Malformed));
    assert_eq!(Domain::check_domain("a."), Err(EncodingError::Malformed));
    assert_eq!(Domain::check_domain("abc."), Err(EncodingError::Malformed));
    assert_eq!(Domain::check_domain(".a"), Err(EncodingError::Malformed));
    assert_eq!(Domain::check_domain(""), Err(EncodingError::Malformed));
}

#[test]
fn domain_encode_ascii() {
    let mut encoder = Encoder::<VecBodyBuf>::new(MailType::Ascii);
    {
        let handle = encoder.encode_header_handle();
        let domain = Domain::from_input("bad.at.domain").unwrap();
        assert!(domain.encode(handle).is_ok());
        handle.finish();
    }
    assert_eq!(encoder.into_string_lossy().unwrap(), "bad.at.domain\r\n");
}

#[test]
fn domain_encode_international_in_utf8_mail() {
    let mut encoder = Encoder::<VecBodyBuf>::new(MailType::Internationalized);
    {
        let handle = encoder.encode_header_handle();
        let domain = Domain::from_input("dömain").unwrap();
        assert!(domain.encode(handle).is_ok());
        handle.finish();
    }
    assert_eq!(encoder.into_string_lossy().unwrap(), "dömain\r\n");
}

#[test]
fn domain_encode_punycoded_in_ascii_mail() {
    let mut encoder = Encoder::<VecBodyBuf>::new(MailType::Ascii);
    {
        let handle = encoder.encode_header_handle();
        let domain = Domain::from_input("dat.ü.dü").unwrap();
        assert!(domain.encode(handle).is_ok());
        handle.finish();
    }
    assert_eq!(encoder.into_string_lossy().unwrap(), "dat.xn--tda.xn--d-eha\r\n");
}

#[test]
fn new_valid() {
    let name = "Content-Randomization-Factor";
    let valid = HeaderName::new(name.into()).unwrap();
    assert_eq!(valid.as_str(), name)
}

#[test]
fn new_invalid() {
    let name = "X@3";
    let res = HeaderName::new(name.into());
    assert_eq!(false, res.is_ok());
}

#[test]
fn wsp_only_phrase_fails() {
    let mut encoder = Encoder::<VecBodyBuf>::new(MailType::Ascii);
    {
        let handle = encoder.encode_header_handle();
        let input = Unstructured::from_input(" \t ".to_string());
        assert!(input.encode(handle).is_err());
        handle.undo_header();
    }
}

#[test]
fn unstructured_keeps_text() {
    let mut encoder = Encoder::<VecBodyBuf>::new(MailType::Ascii);
    {
        let handle = encoder.encode_header_handle();
        let input = Unstructured::from_input("a  b".to_string());
        assert_eq!(input.as_str(), "a  b");
        assert!(input.encode(handle).is_ok());
        handle.finish();
    }
    assert_eq!(encoder.into_string_lossy().unwrap(), "a  b\r\n");
}

#[test]
fn encode_fails() {
    let mut encoder = Encoder::<VecBodyBuf>::new(MailType::Ascii);
    let handle = encoder.encode_header_handle();
    let word = Word::from_input("a↑b");
    assert!(do_encode_word(&word, handle, None).is_err());
    handle.undo_header();
}

#[test]
fn encode_word_as_encoded_word() {
    let mut encoder = Encoder::<VecBodyBuf>::new(MailType::Ascii);
    {
        let handle = encoder.encode_header_handle();
        let word = Word::from_input("a↑b");
        assert!(do_encode_word(&word, handle, Some(EncodedWordContext::Text)).is_ok());
        handle.finish();
    }
    assert_eq!(encoder.into_string_lossy().unwrap(), "=?utf8?Q?a=E2=86=91b?=\r\n");
}

#[test]
fn encode_word_quoted_fallback() {
    let mut encoder = Encoder::<VecBodyBuf>::new(MailType::Ascii);
    {
        let handle = encoder.encode_header_handle();
        let word = Word::from_input("a\"b");
        assert!(do_encode_word(&word, handle, None).is_ok());
        handle.finish();
    }
    assert_eq!(encoder.into_string_lossy().unwrap(), "\"a\\\"b\"\r\n");
}

#[test]
fn encode_word_padding() {
    let words = vec![
        (
            Word { left_padding: None, input: "abc".into(), right_padding: None },
            vec![NowStr, Text("abc".into())],
        ),
        (
            Word {
                left_padding: Some(CFWS::SingleFws(FWS)),
                input: "abc".into(),
                right_padding: None,
            },
            vec![MarkFWS, NowChar, Text(" ".into()), NowStr, Text("abc".into())],
        ),
        (
            Word {
                left_padding: Some(CFWS::SingleFws(FWS)),
                input: "abc".into(),
                right_padding: Some(CFWS::SingleFws(FWS)),
            },
            vec![
                MarkFWS,
                NowChar,
                Text(" ".into()),
                NowStr,
                Text("abc".into()),
                MarkFWS,
                NowChar,
                Text(" ".into()),
            ],
        ),
        (
            Word {
                left_padding: None,
                input: "abc".into(),
                right_padding: Some(CFWS::SingleFws(FWS)),
            },
            vec![NowStr, Text("abc".into()), MarkFWS, NowChar, Text(" ".into())],
        ),
    ];

    for (word, expection) in words.iter() {
        let mut encoder = Encoder::<VecBodyBuf>::new(MailType::Ascii);
        {
            let handle = encoder.encode_header_handle();
            do_encode_word(word, handle, None).unwrap();
        }
        assert_eq!(&encoder.trace()[1..], &expection[..]);
    }
}

#[test]
fn valide_header_names() {
    let valid_cases = &[
        "Date",
        "Some-Header",
        "33",
        "Some34",
        "-33-",
        "---",
        "<3+Who-Cares&44",
        "(3*4=12)^[{~}]",
    ];
    for case in valid_cases.iter() {
        assert!(headers::HeaderName::validate_name(case).is_ok());
    }
}

#[test]
fn invalide_header_names() {
    let invalid_cases = &[
        "ID",
        "DaD",
        "ans",
        "all-lower-calse",
        "ALL-UPPER-CASE",
        "",
        "a:b",
        ":",
        "-:-",
        "Message Id",
        " Leading-Ws",
        "Message\tId",
        "Null\0Msg",
    ];
    for case in invalid_cases.iter() {
        assert!(headers::HeaderName::validate_name(case).is_err(), "{}", case);
    }
}

#[test]
fn header_name_new_keeps_name() {
    let name = headers::HeaderName::new("Message-Id").unwrap();
    assert_eq!(name.as_str(), "Message-Id");
    assert_eq!(headers::HeaderName::new("Message-ID"), Err(EncodingError::InvalidHeaderName));
}

fn disposition_text(d: &Disposition) -> String {
    let mut encoder = Encoder::<VecBodyBuf>::new(MailType::Ascii);
    {
        let handle = encoder.encode_header_handle();
        assert!(d.encode(handle).is_ok());
        handle.finish();
    }
    encoder.into_string_lossy().unwrap()
}

#[test]
fn attachment_encode_file_name() {
    let d = Disposition::new(
        DispositionKind::Attachment,
        FileMeta { file_name: Some("this is nice".to_owned()), ..Default::default() },
    );
    assert_eq!(disposition_text(&d), "attachment;filename=\"this is nice\"\r\n");
}

#[test]
fn attachment_all_params() {
    let d = Disposition::new(
        DispositionKind::Attachment,
        FileMeta {
            file_name: Some("random.png".to_owned()),
            creation_date: Some("Tue,  6 Aug 2013 04:11:01 +0000".to_owned()),
            modification_date: Some("Tue,  6 Aug 2013 04:11:02 +0000".to_owned()),
            read_date: Some("Tue,  6 Aug 2013 04:11:03 +0000".to_owned()),
            size: Some(4096),
        },
    );
    assert_eq!(
        disposition_text(&d),
        [
            "attachment",
            ";filename=random.png",
            ";creation-date=\"Tue,  6 Aug 2013 04:11:01 +0000\"",
            ";modification-date=\"Tue,  6 Aug 2013 04:11:02 +0000\"",
            ";read-date=\"Tue,  6 Aug 2013 04:11:03 +0000\"",
            ";size=4096\r\n",
        ]
        .concat()
    );
}

#[test]
fn disposition_file_meta_access() {
    let mut d = Disposition::inline();
    assert_eq!(d.file_meta(), &FileMeta::default());
    d.file_meta_mut().size = Some(7);
    assert_eq!(d.file_meta().size, Some(7));
    assert_eq!(d.kind(), DispositionKind::Inline);
    assert_eq!(disposition_text(&d), "inline;size=7\r\n");
}
