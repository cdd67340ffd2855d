use mail_core::codec::encoder::{EncodeHeaderHandle, Encoder, VecBodyBuf};
use mail_core::components::mime::{
    create_encoded_mime_parameter, create_mime, create_mime_parameters, percent_encode_param_value, Mime,
};
use mail_core::error::EncodingError;
use mail_core::grammar::MailType;

fn written(mail_type: MailType, f: impl FnOnce(&mut EncodeHeaderHandle)) -> String {
    let mut encoder = Encoder::<VecBodyBuf>::new(mail_type);
    {
        let handle = encoder.encode_header_handle();
        f(handle);
        handle.finish();
    }
    encoder.into_string_lossy().unwrap()
}

#[test]
fn mime_param_simple() {
    let params = &[("time", "unknown"), ("brain", "missing")];
    let mut out = String::new();
    let res = create_mime_parameters(params, &mut out, MailType::Ascii);
    assert!(res.is_ok());

    assert_eq!(";time=unknown;brain=missing", out.as_str())
}

#[test]
fn mime_param_quoted() {
    let params = &[("time", "unknown think"), ("brain", "missing")];
    let mut out = String::new();
    let res = create_mime_parameters(params, &mut out, MailType::Ascii);
    assert!(res.is_ok());

    assert_eq!(";time=\"unknown think\";brain=missing", out.as_str())
}

#[test]
fn mime_param_quoted_utf8() {
    let params = &[("time", "unknown ü\""), ("brain", "missing")];
    let mut out = String::new();
    let res = create_mime_parameters(params, &mut out, MailType::Internationalized);
    assert!(res.is_ok());

    assert_eq!(r#";time="unknown ü\"";brain=missing"#, out.as_str())
}

#[test]
fn mime_param_encoded_in_ascii_but_not_in_utf8() {
    let params = &[("time", "unknown ü\""), ("brain", "missing")];
    let mut out = String::new();
    let res = create_mime_parameters(params, &mut out, MailType::Ascii);
    assert!(res.is_ok());

    assert_eq!(r#";time*=utf8''unknown%20%C3%BC%22;brain=missing"#, out.as_str())
}

#[test]
fn mime_param_always_encoded() {
    let params = &[("filename", "u\x01\x02ps")];
    let mut out = String::new();
    let res = create_mime_parameters(params, &mut out, MailType::Internationalized);
    assert!(res.is_ok());

    assert_eq!(";filename*=utf8''u%01%02ps", out.as_str())
}

#[test]
fn mime_param_name_must_be_token() {
    let mut out = String::from("x");
    assert_eq!(
        Err(EncodingError::NotAToken),
        create_encoded_mime_parameter("a b", "c", &mut out, MailType::Ascii)
    );
    assert_eq!("x", out);

    let params = &[("a", "1"), ("b c", "2"), ("d", "3")];
    let mut out = String::new();
    assert_eq!(Err(EncodingError::NotAToken), create_mime_parameters(params, &mut out, MailType::Ascii));
    assert_eq!(";a=1", out);
}

#[test]
fn percent_encoding() {
    assert_eq!("a%2A%27%25b", percent_encode_param_value("a*'%b"));
    assert_eq!("%E2%86%93", percent_encode_param_value("↓"));
    assert_eq!("", percent_encode_param_value(""));
}

#[test]
fn mime_parse_and_create() {
    let mime = Mime::try_from("text/wtf;charset=utf8;random=alot").unwrap();
    assert_eq!("text/wtf;charset=utf8;random=alot", mime.as_str());
    assert!(Mime::try_from("text").is_err());

    let created = create_mime("text", "plain", &[("charset", "utf8")], MailType::Ascii).unwrap();
    assert_eq!("text/plain;charset=utf8", created.as_str());
    assert_eq!(
        Err(EncodingError::NotAToken),
        create_mime("te xt", "plain", &[], MailType::Ascii)
    );
    assert_eq!(
        Err(EncodingError::NotAToken),
        create_mime("text", "pl/ain", &[], MailType::Ascii)
    );
}

#[test]
fn mime_encode() {
    let mime = Mime::try_from("text/wtf;charset=utf8;random=alot").unwrap();
    let text = written(MailType::Ascii, |handle| {
        assert!(mime.encode(handle).is_ok());
    });
    assert!(text.starts_with("text/wtf;charset=utf8;random=alot"));
}
