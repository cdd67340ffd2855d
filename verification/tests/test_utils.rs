use mail_core::codec::test_utils::{Body, Line, LinePart, State, TestMailEncoder, FWS, OptFWS};
use mail_core::error::EncodingError;
use mail_core::grammar::MailType;

fn empty() -> Vec<State> {
    Vec::new()
}

#[test]
fn push_line_part__empty() {
    let mut ec = TestMailEncoder::new(MailType::Internationalized);
    ec.push_line_part();
    assert_eq!(empty(), ec.into_state_seq())
}

#[test]
fn push_line_part__nonempty() {
    let mut ec = TestMailEncoder::new(MailType::Internationalized);
    ec.write_str("hy there");
    ec.push_line_part();
    assert_eq!(vec![LinePart("hy there")], ec.into_state_seq())
}

#[test]
fn push_line_part__again_empty() {
    let mut ec = TestMailEncoder::new(MailType::Internationalized);
    ec.write_str("hy there");
    ec.write_new_line();
    ec.push_line_part();
    assert_eq!(vec![Line("hy there")], ec.into_state_seq())
}

#[test]
fn into_state_seq() {
    let mut ec = TestMailEncoder::new(MailType::Internationalized);
    ec.write_str("hy there");
    ec.write_new_line();
    ec.write_str("abc");
    assert_eq!(vec![Line("hy there"), LinePart("abc")], ec.into_state_seq())
}

#[test]
fn write_new_line() {
    let mut ec = TestMailEncoder::new(MailType::Internationalized);
    ec.write_new_line();
    assert_eq!(vec![Line("")], ec.into_state_seq())
}

#[test]
fn write_fws() {
    let mut ec = TestMailEncoder::new(MailType::Internationalized);
    ec.write_str("part");
    ec.write_fws();
    ec.write_str("part2");
    assert_eq!(vec![LinePart("part"), FWS, LinePart("part2"),], ec.into_state_seq())
}

#[test]
fn note_fws() {
    let mut ec = TestMailEncoder::new(MailType::Internationalized);
    ec.write_str("part");
    ec.note_optional_fws();
    ec.write_str("part2");
    assert_eq!(vec![LinePart("part"), OptFWS, LinePart("part2"),], ec.into_state_seq())
}

#[test]
fn write_str() {
    let mut ec = TestMailEncoder::new(MailType::Internationalized);
    ec.write_str("part");
    assert_eq!(vec![LinePart("part"),], ec.into_state_seq())
}

#[test]
fn write_char() {
    let mut ec = TestMailEncoder::new(MailType::Internationalized);
    ec.write_char('@');
    assert_eq!(vec![LinePart("@"),], ec.into_state_seq())
}

#[test]
fn write_mixed() {
    let mut ec = TestMailEncoder::new(MailType::Internationalized);
    ec.write_str("abc");
    ec.write_char('@');
    ec.write_str("d.e");
    assert_eq!(vec![LinePart("abc@d.e"),], ec.into_state_seq())
}

#[test]
fn try_write_utf8__nok() {
    let mut ec = TestMailEncoder::new(MailType::Ascii);
    assert_eq!(false, ec.try_write_utf8("").is_ok())
}

#[test]
fn try_write_utf8__ok() {
    let mut ec = TestMailEncoder::new(MailType::Internationalized);
    ec.try_write_utf8("↑↓↑↓").unwrap();
    assert_eq!(vec![LinePart("↑↓↑↓"),], ec.into_state_seq())
}

#[test]
fn try_write_atext__nok() {
    let mut ec = TestMailEncoder::new(MailType::Ascii);
    assert_eq!(false, ec.try_write_atext("↑↓↑↓").is_ok());
}

#[test]
fn try_write_atext__ok() {
    let mut ec = TestMailEncoder::new(MailType::Internationalized);
    ec.try_write_atext("↑↓↑↓").unwrap();
    assert_eq!(vec![LinePart("↑↓↑↓"),], ec.into_state_seq())
}

#[test]
fn try_write_atext__nok2() {
    let mut ec = TestMailEncoder::new(MailType::Internationalized);
    assert_eq!(false, ec.try_write_atext(" ").is_ok());
}

#[test]
fn write_body__utf8() {
    let mut ec = TestMailEncoder::new(MailType::Internationalized);
    ec.write_body("→ →".as_bytes());
    assert_eq!(vec![Body("→ →")], ec.into_state_seq())
}

#[test]
fn write_body__ascii_ok() {
    let mut ec = TestMailEncoder::new(MailType::Ascii);
    ec.write_body("abc".as_bytes());
    assert_eq!(vec![Body("abc")], ec.into_state_seq())
}

#[test]
fn test_encoder_errors_and_line_length() {
    let mut ec = TestMailEncoder::new(MailType::Ascii);
    assert_eq!(Err(EncodingError::Utf8InAsciiMail), ec.try_write_utf8("a"));
    assert_eq!(Err(EncodingError::NotAtext), ec.try_write_atext("a b"));
    ec.write_str_unchecked("→a");
    assert_eq!(4, ec.current_line_byte_length());
    assert_eq!(MailType::Ascii, ec.mail_type());
}
