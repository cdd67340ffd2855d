use mail_core::codec::encoder::Token::{MarkFWS, NowChar, NowStr, Text};
use mail_core::codec::encoder::{simplify_trace_tokens, Encoder, Token, VecBodyBuf};
use mail_core::components::email::{Domain, Email, LocalPart};
use mail_core::components::mailbox::Mailbox;
use mail_core::components::mailbox_list::{MailboxList, OptMailboxList};
use mail_core::components::path::Path;
use mail_core::components::phrase::Phrase;
use mail_core::components::phrase_list::PhraseList;
use mail_core::components::received_token::ReceivedToken;
use mail_core::components::word::Word;
use mail_core::error::EncodingError;
use mail_core::grammar::MailType;

fn trace_of(encoder: &Encoder<VecBodyBuf>) -> Vec<Token> {
    encoder.trace()[1..].to_vec()
}

fn written(mail_type: MailType, f: impl FnOnce(&mut mail_core::codec::encoder::EncodeHeaderHandle)) -> String {
    let mut encoder = Encoder::<VecBodyBuf>::new(mail_type);
    {
        let handle = encoder.encode_header_handle();
        f(handle);
        handle.finish();
    }
    encoder.into_string_lossy().unwrap()
}

#[test]
fn empty_path() {
    let mut encoder = Encoder::<VecBodyBuf>::new(MailType::Ascii);
    {
        let handle = encoder.encode_header_handle();
        assert!(Path(None).encode(handle).is_ok());
    }
    assert_eq!(
        trace_of(&encoder),
        vec![MarkFWS, NowChar, Text("<".into()), NowChar, Text(">".into()), MarkFWS]
    );
}

#[test]
fn simple_path() {
    let mut encoder = Encoder::<VecBodyBuf>::new(MailType::Ascii);
    {
        let handle = encoder.encode_header_handle();
        let path = Path(Some(Email::from_input("abc@de.fg").unwrap()));
        assert!(path.encode(handle).is_ok());
    }
    assert_eq!(
        trace_of(&encoder),
        vec![
            MarkFWS,
            NowChar,
            Text("<".into()),
            MarkFWS,
            NowStr,
            Text("abc".into()),
            MarkFWS,
            NowChar,
            Text("@".into()),
            MarkFWS,
            NowStr,
            Text("de.fg".into()),
            MarkFWS,
            NowChar,
            Text(">".into()),
            MarkFWS
        ]
    );
}

#[test]
fn local_part_simple() {
    let out = written(MailType::Ascii, |h| assert!(LocalPart::from_input("hans").encode(h).is_ok()));
    assert_eq!(out, "hans\r\n");
}

#[test]
fn local_part_quoted() {
    let out = written(MailType::Ascii, |h| assert!(LocalPart::from_input("ha ns").encode(h).is_ok()));
    assert_eq!(out, "\"ha ns\"\r\n");
}

#[test]
fn local_part_dots() {
    let out = written(MailType::Ascii, |h| assert!(LocalPart::from_input("a.b").encode(h).is_ok()));
    assert_eq!(out, "a.b\r\n");
    let out = written(MailType::Ascii, |h| assert!(LocalPart::from_input("a..b").encode(h).is_ok()));
    assert_eq!(out, "\"a..b\"\r\n");
    let out = written(MailType::Ascii, |h| assert!(LocalPart::from_input(".ab").encode(h).is_ok()));
    assert_eq!(out, "\".ab\"\r\n");
}

#[test]
fn local_part_utf8() {
    let out = written(MailType::Internationalized, |h| {
        assert!(LocalPart::from_input("Jörn").encode(h).is_ok())
    });
    assert_eq!(out, "Jörn\r\n");
}

#[test]
fn local_part_utf8_on_ascii() {
    let mut encoder = Encoder::<VecBodyBuf>::new(MailType::Ascii);
    let handle = encoder.encode_header_handle();
    let local = LocalPart::from_input("Jörn");
    assert!(local.encode(handle).is_err());
    assert_eq!(local.encode(handle), Err(EncodingError::NotAscii('ö')));
    handle.undo_header();
}

#[test]
fn email_encode() {
    let out = written(MailType::Ascii, |h| {
        assert!(Email::from_input("affen@haus").unwrap().encode(h).is_ok())
    });
    assert_eq!(out, "affen@haus\r\n");
}

#[test]
fn a_domain() {
    let mut encoder = Encoder::<VecBodyBuf>::new(MailType::Ascii);
    {
        let handle = encoder.encode_header_handle();
        let token = ReceivedToken::Domain(Domain::from_input("random.mailnot").unwrap());
        assert!(token.encode(handle).is_ok());
    }
    assert_eq!(
        simplify_trace_tokens(trace_of(&encoder)),
        vec![MarkFWS, Text("random.mailnot".into()), MarkFWS]
    );
}

#[test]
fn a_address() {
    let mut encoder = Encoder::<VecBodyBuf>::new(MailType::Ascii);
    {
        let handle = encoder.encode_header_handle();
        let email = Email::from_input("modnar@random.mailnot").unwrap();
        assert!(ReceivedToken::Address(email).encode(handle).is_ok());
    }
    assert_eq!(
        simplify_trace_tokens(trace_of(&encoder)),
        vec![
            Text("<".into()),
            MarkFWS,
            Text("modnar".into()),
            MarkFWS,
            Text("@".into()),
            MarkFWS,
            Text("random.mailnot".into()),
            MarkFWS,
            Text(">".into())
        ]
    );
}

#[test]
fn a_word() {
    let mut encoder = Encoder::<VecBodyBuf>::new(MailType::Ascii);
    {
        let handle = encoder.encode_header_handle();
        assert!(ReceivedToken::Word(Word::from_input("simple")).encode(handle).is_ok());
    }
    assert_eq!(simplify_trace_tokens(trace_of(&encoder)), vec![Text("simple".into())]);
}

#[test]
fn a_quoted_word() {
    let mut encoder = Encoder::<VecBodyBuf>::new(MailType::Ascii);
    {
        let handle = encoder.encode_header_handle();
        assert!(ReceivedToken::Word(Word::from_input("sim ple")).encode(handle).is_ok());
    }
    assert_eq!(simplify_trace_tokens(trace_of(&encoder)), vec![Text("\"sim ple\"".into())]);
}

#[test]
fn no_encoded_word() {
    let mut encoder = Encoder::<VecBodyBuf>::new(MailType::Ascii);
    let handle = encoder.encode_header_handle();
    let input = ReceivedToken::Word(Word::from_input("↓right"));
    assert!(input.encode(handle).is_err());
    handle.undo_header();
}

#[test]
fn email_only_mailbox() {
    let out = written(MailType::Ascii, |h| {
        let mailbox = Mailbox::from_email(Email::from_input("affen@haus").unwrap());
        assert!(mailbox.encode(h).is_ok())
    });
    assert_eq!(out, "<affen@haus>\r\n");
}

#[test]
fn mailbox_with_display_text() {
    let out = written(MailType::Ascii, |h| {
        let mailbox = Mailbox {
            display_name: Some(Phrase::from_input("ay ya").unwrap()),
            email: Email::from_input("affen@haus").unwrap(),
        };
        assert!(mailbox.encode(h).is_ok())
    });
    assert_eq!(out, "ay ya <affen@haus>\r\n");
}

#[test]
fn empty_list() {
    let out = written(MailType::Ascii, |h| assert!(OptMailboxList(Vec::new()).encode(h).is_ok()));
    assert_eq!(out, "");
}

#[test]
fn multiple_mailboxes() {
    let out = written(MailType::Ascii, |h| {
        let list = MailboxList(vec![
            Mailbox {
                display_name: Some(Phrase::from_input("hy ho").unwrap()),
                email: Email::from_input("nar@mod").unwrap(),
            },
            Mailbox { display_name: None, email: Email::from_input("ran@dom").unwrap() },
        ]);
        assert!(list.encode(h).is_ok())
    });
    assert_eq!(out, "hy ho <nar@mod>, <ran@dom>\r\n");
}

#[test]
fn single_mailbox_list() {
    let list = MailboxList::from_single(Mailbox::from_email(Email::from_input("a@b").unwrap()));
    assert_eq!(list.0.len(), 1);
}

#[test]
fn phrase_list_encode() {
    let out = written(MailType::Ascii, |h| {
        let list = PhraseList(vec![
            Phrase::from_input("a b").unwrap(),
            Phrase::from_input("c").unwrap(),
        ]);
        assert!(list.encode(h).is_ok())
    });
    assert_eq!(out, "a b, c\r\n");
}
