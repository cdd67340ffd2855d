use mail_core::codec::encoder::Token::{
    NewSection, NowAText, NowChar, NowStr, NowUnchecked, NowUtf8, Text, TruncateToCRLF, CRLF, End,
};
use mail_core::codec::encoder::{
    simplify_trace_tokens, EncodableClosure, EncodeHeaderHandle, Encoder, Section, Token,
    VecBodyBuf,
};
use mail_core::error::EncodingError;
use mail_core::grammar::MailType;

fn vec_body(unique_part: u8) -> VecBodyBuf {
    VecBodyBuf((0..unique_part).collect())
}

fn header_sections(encoder: Encoder<VecBodyBuf>) -> Vec<Section<VecBodyBuf>> {
    encoder.into_sections()
}

#[test]
fn does_simplify_tokens_strip_nows() {
    let inp = vec![
        NowChar,
        Text("h".into()),
        CRLF,
        NowStr,
        Text("y yo".into()),
        CRLF,
        NowUtf8,
        Text(", what's".into()),
        CRLF,
        NowUnchecked,
        Text("up!".into()),
        CRLF,
        NowAText,
        Text("abc".into()),
    ];
    let out = simplify_trace_tokens(inp);
    assert_eq!(
        out,
        vec![
            Text("h".into()),
            CRLF,
            Text("y yo".into()),
            CRLF,
            Text(", what's".into()),
            CRLF,
            Text("up!".into()),
            CRLF,
            Text("abc".into())
        ]
    )
}

#[test]
fn simplify_does_collapse_text() {
    let inp = vec![
        NowChar,
        Text("h".into()),
        NowStr,
        Text("y yo".into()),
        NowUtf8,
        Text(", what's".into()),
        NowUnchecked,
        Text(" up! ".into()),
        NowAText,
        Text("abc".into()),
    ];
    let out = simplify_trace_tokens(inp);
    assert_eq!(out, vec![Text("hy yo, what's up! abc".into())]);
}

#[test]
fn simplify_works_with_empty_text() {
    let inp = vec![NowStr, Text("".into()), CRLF];
    assert_eq!(simplify_trace_tokens(inp), vec![Text("".into()), CRLF])
}

#[test]
fn simplify_works_with_trailing_empty_text() {
    let inp = vec![Text("a".into()), CRLF, Text("".into())];
    assert_eq!(simplify_trace_tokens(inp), vec![Text("a".into()), CRLF, Text("".into())])
}

#[test]
fn is_implemented_for_closures() {
    let text = "hy ho";
    let closure = EncodableClosure(move |handle: &mut EncodeHeaderHandle| handle.write_utf8(text));

    let mut encoder = Encoder::<VecBodyBuf>::new(MailType::Internationalized);
    {
        let handle = encoder.encode_header_handle();
        assert!(closure.encode(handle).is_ok());
        handle.finish();
    }
    assert_eq!(
        encoder.trace().as_slice(),
        &[NewSection, NowUtf8, Text("hy ho".into()), CRLF, End]
    )
}

#[test]
fn new_encoder() {
    let encoder = Encoder::<VecBodyBuf>::new(MailType::Internationalized);
    assert_eq!(encoder.mail_type(), MailType::Internationalized);
}

#[test]
fn writing_bodies() {
    let mut encoder = Encoder::new(MailType::Ascii);
    let body1 = vec_body(0);
    encoder.write_body(body1.clone());
    let body2 = vec_body(5);
    encoder.write_body(body2.clone());

    let res = encoder
        .into_sections()
        .into_iter()
        .map(|s| match s {
            Section::Header(..) => panic!("we only added bodies"),
            Section::MIMEBody(body) => body,
        })
        .collect::<Vec<_>>();

    let expected = vec![body1, body2];

    assert_eq!(res, expected);
}

#[test]
fn undo_does_undo() {
    let mut encoder = Encoder::<VecBodyBuf>::new(MailType::Ascii);
    {
        let handle = encoder.encode_header_handle();
        assert!(handle.write_str("Header-One: 12").is_ok());
        handle.undo_header();
    }
    let mut sections = header_sections(encoder);
    assert_eq!(sections.len(), 1);
    let last = sections.pop().unwrap().unwrap_header();
    assert_eq!(last, String::from(""));
}

#[test]
fn undo_does_not_undo_to_much() {
    let mut encoder = Encoder::<VecBodyBuf>::new(MailType::Ascii);
    {
        let handle = encoder.encode_header_handle();
        assert!(handle.write_str("Header-One: 12").is_ok());
        handle.finish();
        assert!(handle.write_str("ups: sa").is_ok());
        handle.undo_header();
    }
    let mut sections = header_sections(encoder);
    assert_eq!(sections.len(), 1);
    let last = sections.pop().unwrap().unwrap_header();
    assert_eq!(last, String::from("Header-One: 12\r\n"));
}

fn write_and_finish(input: &str) -> String {
    let mut encoder = Encoder::<VecBodyBuf>::new(MailType::Ascii);
    {
        let handle = encoder.encode_header_handle();
        assert!(handle.write_str(input).is_ok());
        handle.finish();
    }
    let mut sections = header_sections(encoder);
    assert_eq!(sections.len(), 1);
    sections.pop().unwrap().unwrap_header()
}

#[test]
fn finish_adds_crlf_if_needed() {
    assert_eq!(write_and_finish("Header-One: 12"), String::from("Header-One: 12\r\n"));
}

#[test]
fn finish_does_not_add_crlf_if_not_needed() {
    assert_eq!(write_and_finish("Header-One: 12\r\n"), String::from("Header-One: 12\r\n"));
}

#[test]
fn finish_does_truncat_if_needed() {
    assert_eq!(write_and_finish("Header-One: 12\r\n   "), String::from("Header-One: 12\r\n"));
}

#[test]
fn finish_can_handle_fws() {
    assert_eq!(
        write_and_finish("Header-One: 12 +\r\n 4"),
        String::from("Header-One: 12 +\r\n 4\r\n")
    );
}

#[test]
fn finish_only_truncats_if_needed() {
    assert_eq!(
        write_and_finish("Header-One: 12 +\r\n 4  "),
        String::from("Header-One: 12 +\r\n 4  \r\n")
    );
}

#[test]
fn orphan_lf_error() {
    let mut encoder = Encoder::<VecBodyBuf>::new(MailType::Ascii);
    let handle = encoder.encode_header_handle();
    assert_eq!(Err(EncodingError::OrphanLf), handle.write_str("H: \na"));
    handle.undo_header()
}

#[test]
fn orphan_cr_error() {
    let mut encoder = Encoder::<VecBodyBuf>::new(MailType::Ascii);
    let handle = encoder.encode_header_handle();
    assert_eq!(Err(EncodingError::OrphanCr), handle.write_str("H: \ra"));
    handle.undo_header()
}

#[test]
fn orphan_trailing_lf() {
    let mut encoder = Encoder::<VecBodyBuf>::new(MailType::Ascii);
    let handle = encoder.encode_header_handle();
    assert!(handle.write_str("H: a\n").is_err());
    handle.undo_header();
}

#[test]
fn orphan_trailing_cr() {
    assert_eq!(write_and_finish("H: a\r"), String::from("H: a\r\n"));
}

#[test]
fn break_line_on_fws() {
    let mut encoder = Encoder::<VecBodyBuf>::new(MailType::Ascii);
    {
        let handle = encoder.encode_header_handle();
        assert!(handle.write_str("A23456789:").is_ok());
        handle.mark_fws_pos();
        assert!(handle
            .write_str("20_345678930_345678940_345678950_345678960_345678970_345678912345678XX")
            .is_ok());
        handle.finish();
    }
    let mut sections = header_sections(encoder);
    assert_eq!(sections.len(), 1);
    let last = sections.pop().unwrap().unwrap_header();
    assert_eq!(
        &*last,
        "A23456789:\r\n 20_345678930_345678940_345678950_345678960_345678970_345678912345678XX\r\n"
    );
}

#[test]
fn to_long_unbreakable_line() {
    let mut encoder = Encoder::<VecBodyBuf>::new(MailType::Ascii);
    {
        let handle = encoder.encode_header_handle();
        assert!(handle.write_str("A23456789:").is_ok());
        handle.mark_fws_pos();
        assert!(handle
            .write_str("10_345678920_345678930_345678940_345678950_345678960_345678970_345678980_345678990_345678900_3456789")
            .is_ok());
        handle.finish();
    }
    let mut sections = header_sections(encoder);
    assert_eq!(sections.len(), 1);
    let last = sections.pop().unwrap().unwrap_header();
    assert_eq!(
        &*last,
        "A23456789:\r\n 10_345678920_345678930_345678940_345678950_345678960_345678970_345678980_345678990_345678900_3456789\r\n"
    );
}

#[test]
fn multiple_lines_breaks() {
    let mut encoder = Encoder::<VecBodyBuf>::new(MailType::Ascii);
    {
        let handle = encoder.encode_header_handle();
        assert!(handle.write_str("A23456789:").is_ok());
        handle.mark_fws_pos();
        assert!(handle
            .write_str("10_345678920_345678930_345678940_345678950_345678960_345678970_3456789")
            .is_ok());
        handle.mark_fws_pos();
        assert!(handle
            .write_str("10_345678920_345678930_345678940_3456789")
            .is_ok());
        handle.finish();
    }
    let mut sections = header_sections(encoder);
    assert_eq!(sections.len(), 1);
    let last = sections.pop().unwrap().unwrap_header();
    assert_eq!(
        &*last,
        "A23456789:\r\n 10_345678920_345678930_345678940_345678950_345678960_345678970_3456789\r\n 10_345678920_345678930_345678940_3456789\r\n"
    );
}

#[test]
fn hard_line_limit() {
    let mut encoder = Encoder::<VecBodyBuf>::new(MailType::Ascii);
    let handle = encoder.encode_header_handle();
    for x in 0..998 {
        if let Err(_) = handle.write_char('X') {
            panic!("error when writing char nr.: {:?}", x + 1)
        }
    }
    let res = &[
        handle.write_char('X').is_err(),
        handle.write_char('X').is_err(),
        handle.write_char('X').is_err(),
        handle.write_char('X').is_err(),
    ];
    assert_eq!(res, &[true, true, true, true]);
    assert_eq!(Err(EncodingError::HardLineLengthLimit), handle.write_char('X'));
    handle.undo_header();
}

#[test]
fn write_utf8_fail_on_ascii_mail() {
    let mut encoder = Encoder::<VecBodyBuf>::new(MailType::Ascii);
    let handle = encoder.encode_header_handle();
    assert_eq!(Err(EncodingError::Utf8InAsciiMail), handle.write_utf8("↓"));
    handle.undo_header();
}

#[test]
fn write_utf8_ascii_string_fail_on_ascii_mail() {
    let mut encoder = Encoder::<VecBodyBuf>::new(MailType::Ascii);
    let handle = encoder.encode_header_handle();
    assert!(handle.write_utf8("just_ascii").is_err());
    handle.undo_header();
}

#[test]
fn write_utf8_ok_on_internationalized_mail() {
    let mut encoder = Encoder::<VecBodyBuf>::new(MailType::Internationalized);
    {
        let handle = encoder.encode_header_handle();
        assert!(handle.write_utf8("❤").is_ok());
        handle.finish();
    }
    let mut sections = header_sections(encoder);
    assert_eq!(sections.len(), 1);
    let last = sections.pop().unwrap().unwrap_header();
    assert_eq!(last, String::from("❤\r\n"));
}

#[test]
fn try_write_atext_ascii() {
    let mut encoder = Encoder::<VecBodyBuf>::new(MailType::Ascii);
    {
        let handle = encoder.encode_header_handle();
        assert!(handle.try_write_atext("hoho").is_ok());
        assert_eq!(Err(EncodingError::NotAtext), handle.try_write_atext("a(b"));
        assert!(handle.try_write_atext("").is_ok());
        handle.finish();
    }
    let mut sections = header_sections(encoder);
    assert_eq!(sections.len(), 1);
    let last = sections.pop().unwrap().unwrap_header();
    assert_eq!(last, String::from("hoho\r\n"));
}

#[test]
fn try_write_atext_internationalized() {
    let mut encoder = Encoder::<VecBodyBuf>::new(MailType::Internationalized);
    {
        let handle = encoder.encode_header_handle();
        assert!(handle.try_write_atext("hoho").is_ok());
        assert!(handle.try_write_atext("a(b").is_err());
        assert!(handle.try_write_atext("❤").is_ok());
        handle.finish();
    }
    let mut sections = header_sections(encoder);
    assert_eq!(sections.len(), 1);
    let last = sections.pop().unwrap().unwrap_header();
    assert_eq!(last, String::from("hoho❤\r\n"));
}

#[test]
fn multiple_finish_calls_are_ok() {
    let mut encoder = Encoder::<VecBodyBuf>::new(MailType::Internationalized);
    {
        let handle = encoder.encode_header_handle();
        assert!(handle.try_write_atext("hoho").is_ok());
        assert!(handle.try_write_atext("a(b").is_err());
        assert!(handle.try_write_atext("❤").is_ok());
        handle.finish();
        handle.finish();
        handle.finish();
        handle.finish();
    }
    let mut sections = header_sections(encoder);
    assert_eq!(sections.len(), 1);
    let last = sections.pop().unwrap().unwrap_header();
    assert_eq!(last, String::from("hoho❤\r\n"));
}

#[test]
fn multiple_finish_and_undo_calls() {
    let mut encoder = Encoder::<VecBodyBuf>::new(MailType::Internationalized);
    {
        let handle = encoder.encode_header_handle();
        assert!(handle.try_write_atext("hoho").is_ok());
        assert!(handle.try_write_atext("a(b").is_err());
        assert!(handle.try_write_atext("❤").is_ok());
        handle.undo_header();
        handle.finish();
        handle.undo_header();
        handle.undo_header();
    }
    let mut sections = header_sections(encoder);
    assert_eq!(sections.len(), 1);
    let last = sections.pop().unwrap().unwrap_header();
    assert_eq!(last, String::from(""));
}

#[test]
fn header_body_header() {
    let mut encoder = Encoder::<VecBodyBuf>::new(MailType::Internationalized);
    {
        let handle = encoder.encode_header_handle();
        assert!(handle.write_utf8("H: yay").is_ok());
        handle.finish();
    }
    let body = vec_body(3);
    encoder.write_body(body.clone());
    {
        let handle = encoder.encode_header_handle();
        assert!(handle.write_utf8("❤").is_ok());
        handle.finish();
    }
    let mut sections = header_sections(encoder);
    assert_eq!(sections.len(), 3);
    let last = sections.pop().unwrap().unwrap_header();
    assert_eq!(last, String::from("❤\r\n"));
    let last = sections.pop().unwrap().unwrap_body();
    assert_eq!(last, body);
    let last = sections.pop().unwrap().unwrap_header();
    assert_eq!(last, String::from("H: yay\r\n"));
}

#[test]
fn drop_without_write_is_ok() {
    let mut encoder = Encoder::<VecBodyBuf>::new(MailType::Ascii);
    let handle = encoder.encode_header_handle();
    assert!(!handle.has_unfinished_parts());
}

#[test]
fn drop_after_undo_is_ok() {
    let mut encoder = Encoder::<VecBodyBuf>::new(MailType::Ascii);
    let handle = encoder.encode_header_handle();
    assert!(handle.write_str("Header-One").is_ok());
    handle.undo_header();
    assert!(!handle.has_unfinished_parts());
}

#[test]
fn drop_after_finish_is_ok() {
    let mut encoder = Encoder::<VecBodyBuf>::new(MailType::Ascii);
    let handle = encoder.encode_header_handle();
    assert!(handle.write_str("Header-One: 12").is_ok());
    handle.finish();
    assert!(!handle.has_unfinished_parts());
}

#[test]
fn trace_and_undo() {
    let mut encoder = Encoder::<VecBodyBuf>::new(MailType::Internationalized);
    {
        let handle = encoder.encode_header_handle();
        assert!(handle.write_utf8("something").is_ok());
        handle.mark_fws_pos();
        assert!(handle.write_utf8("<else>").is_ok());
        handle.undo_header();
    }
    assert_eq!(encoder.trace().len(), 1);
}

#[test]
fn trace_and_undo_does_do_to_much() {
    let mut encoder = Encoder::<VecBodyBuf>::new(MailType::Internationalized);
    {
        let handle = encoder.encode_header_handle();
        assert!(handle.write_utf8("H: a").is_ok());
        handle.finish();
        assert!(handle.write_utf8("something").is_ok());
        handle.mark_fws_pos();
        assert!(handle.write_utf8("<else>").is_ok());
        handle.undo_header();
    }
    assert_eq!(
        encoder.trace(),
        &vec![NewSection, NowUtf8, Text("H: a".into()), CRLF, End]
    );
}

#[test]
fn trace_traces() {
    let mut encoder = Encoder::<VecBodyBuf>::new(MailType::Internationalized);
    {
        let handle = encoder.encode_header_handle();
        assert!(handle.write_str("Header").is_ok());
        assert!(handle.write_char(':').is_ok());
        assert!(handle.try_write_atext("a(b)c").is_err());
        assert!(handle.try_write_atext("abc").is_ok());
        assert!(handle.write_utf8("❤").is_ok());
        assert!(handle.write_str_unchecked("remove me\r\n").is_ok());
        assert!(handle.write_utf8("   ").is_ok());
        handle.finish()
    }
    assert_eq!(
        encoder.trace(),
        &vec![
            NewSection,
            NowStr,
            Text("Header".into()),
            NowChar,
            Text(":".into()),
            NowAText,
            Text("abc".into()),
            NowUtf8,
            Text("❤".into()),
            NowUnchecked,
            Text("remove me".into()),
            CRLF,
            NowUtf8,
            Text("   ".into()),
            TruncateToCRLF,
            End
        ]
    );
}

#[test]
fn into_string_lossy_joins_sections() {
    let mut encoder = Encoder::<VecBodyBuf>::new(MailType::Ascii);
    {
        let handle = encoder.encode_header_handle();
        assert!(handle.write_str("H: a").is_ok());
        handle.finish();
    }
    encoder.add_blank_line();
    encoder.write_body(VecBodyBuf(b"body\xff".to_vec()));
    encoder.write_body(VecBodyBuf(b"ends\r\n".to_vec()));
    assert_eq!(
        encoder.into_string_lossy().unwrap(),
        "H: a\r\n\r\nbody\u{FFFD}\r\nends\r\n".to_owned()
    );
}

#[test]
fn token_is_comparable() {
    let t: Token = Text("a".into());
    assert_eq!(t, Text("a".to_owned()));
}
