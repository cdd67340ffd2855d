use mail_core::codec::test_utils::{LinePart, State, TestMailEncoder};
use mail_core::components::message_id::{
    dot_atom_text, id_left, id_right, parse_message_id, MessageID, MessageIDList, ParseResult,
};
use mail_core::error::EncodingError;
use mail_core::grammar::MailType;

fn done(rest: &str, matched: &str) -> ParseResult<String> {
    ParseResult::Done(rest.to_string(), matched.to_string())
}

#[test]
fn simple() {
    let mut ec = TestMailEncoder::new(MailType::Ascii);
    let mid = MessageID::from_input("affen@haus").unwrap();
    assert!(mid.encode(&mut ec).is_ok());
    assert_eq!(
        ec.into_state_seq(),
        vec![State::OptFWS, LinePart("<affen@haus>"), State::OptFWS]
    );
}

#[test]
fn utf8() {
    let mut ec = TestMailEncoder::new(MailType::Internationalized);
    let mid = MessageID::from_input("↓@↑.utf8").unwrap();
    assert!(mid.encode(&mut ec).is_ok());
    assert_eq!(
        ec.into_state_seq(),
        vec![State::OptFWS, LinePart("<↓@↑.utf8>"), State::OptFWS]
    );
}

#[test]
fn utf8_fails() {
    let mut ec = TestMailEncoder::new(MailType::Ascii);
    let mid = MessageID::from_input("abc@øpunny.code").unwrap();
    let res = mid.encode(&mut ec);
    assert_eq!(false, res.is_ok());
    assert_eq!(res, Err(EncodingError::Utf8InAsciiMail));
}

#[test]
fn multipls() {
    let mut ec = TestMailEncoder::new(MailType::Ascii);
    let fst = MessageID::from_input("affen@haus").unwrap();
    let snd = MessageID::from_input("obst@salat").unwrap();
    let list = MessageIDList(vec![fst, snd]);
    assert!(list.encode(&mut ec).is_ok());
    assert_eq!(
        ec.into_state_seq(),
        vec![
            State::OptFWS,
            LinePart("<affen@haus>"),
            State::OptFWS,
            State::OptFWS,
            LinePart("<obst@salat>"),
            State::OptFWS
        ]
    );
}

#[test]
fn message_id_list_fails_on_utf8_in_ascii_mail() {
    let mut ec = TestMailEncoder::new(MailType::Ascii);
    let fst = MessageID::from_input("affen@haus").unwrap();
    let snd = MessageID::from_input("ö@salat").unwrap();
    let list = MessageIDList(vec![fst, snd]);
    assert_eq!(list.encode(&mut ec), Err(EncodingError::Utf8InAsciiMail));
}

#[test]
fn message_id_keeps_text() {
    let mid = MessageID::from_input("a.b@[1.2.3.4]").unwrap();
    assert_eq!(mid.as_str(), "a.b@[1.2.3.4]");
}

#[test]
fn invalid_message_ids() {
    for case in ["", "abc", "abc@", "@abc", "a b@c", "abc@de.", "a..b@c", "abc@[de", "a@b c"].iter() {
        assert_eq!(MessageID::from_input(case), Err(EncodingError::Malformed), "{}", case);
    }
}

#[test]
fn rec_dot_atom_text_no_dot() {
    match dot_atom_text("abc") {
        ParseResult::Done(ref rest, ref m) if rest == "" && m == "abc" => {},
        other => panic!("excepted Done(\"\",\"abc\") got {:?}", other),
    }
}

#[test]
fn rec_dot_atom_text_dots() {
    match dot_atom_text("abc.def.ghi") {
        ParseResult::Done(ref rest, ref m) if rest == "" && m == "abc.def.ghi" => {},
        other => panic!("excepted Done(\"\",\"abc.def.ghi\") got {:?}", other),
    }
}

#[test]
fn rec_dot_atom_text_no_end_dot() {
    let test_str = "abc.";
    let need_size = test_str.len() + 1;
    match dot_atom_text(test_str) {
        ParseResult::Incomplete(ns) if ns == need_size => {},
        other => panic!("excepted Incomplete(Complete) got {:?}", other),
    }
}

#[test]
fn rec_dot_atom_text_no_douple_dot() {
    match dot_atom_text("abc..de") {
        ParseResult::Done(ref rest, ref m) if rest == "..de" && m == "abc" => {},
        other => panic!("excepted Done(\"..de\",\"abc\") got {:?}", other),
    }
}

#[test]
fn rec_dot_atom_text_no_start_dot() {
    match dot_atom_text(".abc") {
        ParseResult::Error => {},
        other => panic!("expected error got {:?}", other),
    }
}

#[test]
fn no_empty() {
    match dot_atom_text("") {
        ParseResult::Incomplete(1) => {},
        other => panic!("excepted Incomplete(Size(1)) got {:?}", other),
    }
}

#[test]
fn id_parts() {
    assert_eq!(id_left("ab.c@d"), done("@d", "ab.c"));
    assert_eq!(id_right("[1.2]x"), done("x", "[1.2]"));
    assert_eq!(id_right("de.fg"), done("", "de.fg"));
    assert_eq!(id_right("[de"), ParseResult::Incomplete(4));
    assert_eq!(id_right("[d e]"), ParseResult::Error);
}

#[test]
fn parse_message_id_parts() {
    assert_eq!(
        parse_message_id("a.b@c.d>"),
        ParseResult::Done(">".to_string(), ("a.b".to_string(), "c.d".to_string()))
    );
    assert_eq!(parse_message_id("abc"), ParseResult::Incomplete(4));
    assert_eq!(parse_message_id("abc#d"), ParseResult::Incomplete(6));
    assert_eq!(parse_message_id("ab(c"), ParseResult::Error);
}
