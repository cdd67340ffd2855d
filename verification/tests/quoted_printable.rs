use mail_core::codec::quoted_printable::{header_encode, header_encode_utf8, lower_nibble_to_hex};
use mail_core::codec::writer::{EncodedWordEncoding, EncodedWordWriter, VecWriter};

#[test]
fn to_hex() {
    let data = &[('0', 0b11110000), ('0', 0b0), ('7', 0b0111), ('7', 0b10111), ('F', 0b1111)];
    for &(char, byte) in data {
        assert_eq!(char, lower_nibble_to_hex(byte));
    }
}

fn check(test_data: &str, expected: &[&str]) {
    let mut out = VecWriter::new("utf8", EncodedWordEncoding::QuotedPrintable);
    header_encode_utf8(test_data, &mut out);
    let got: Vec<&str> = out.data().iter().map(|x| x.as_str()).collect();
    assert_eq!(expected, &got[..]);
}

#[test]
fn can_be_used_in_comments() {
    check("()\"", &["=?utf8?Q?=28=29=22?="]);
}

#[test]
fn can_be_used_in_phrase() {
    check(
        "{}~@#$%^&*()=|\\[]';:.",
        &["=?utf8?Q?=7B=7D=7E=40=23=24=25=5E=26*=28=29=3D=7C=5C=5B=5D=27=3B=3A=2E?="],
    );
}

#[test]
fn bad_chars_in_all_contexts() {
    check("?= \t\r\n", &["=?utf8?Q?=3F=3D=20=09=0D=0A?="]);
}

#[test]
fn encode_ascii() {
    check(
        "abcdefghijklmnopqrstuvwxyz \t?=0123456789!@#$%^&*()_+-",
        &[
            "=?utf8?Q?abcdefghijklmnopqrstuvwxyz=20=09=3F=3D0123456789!=40=23=24=25=5E?=",
            "=?utf8?Q?=26*=28=29_+-?=",
        ],
    );
}

#[test]
fn how_it_handales_newlines() {
    check("\r\n", &["=?utf8?Q?=0D=0A?="]);
}

#[test]
fn split_into_multiple_ecws() {
    check(
        "0123456789012345678901234567890123456789012345678901234567891234newline",
        &[
            "=?utf8?Q?0123456789012345678901234567890123456789012345678901234567891234?=",
            "=?utf8?Q?newline?=",
        ],
    );
}

#[test]
fn bigger_chunks() {
    check(
        "ランダムテキスト ראַנדאָם טעקסט",
        &[
            "=?utf8?Q?=E3=83=A9=E3=83=B3=E3=83=80=E3=83=A0=E3=83=86=E3=82=AD=E3=82=B9?=",
            "=?utf8?Q?=E3=83=88=20=D7=A8=D7=90=D6=B7=D7=A0=D7=93=D7=90=D6=B8=D7=9D=20?=",
            "=?utf8?Q?=D7=98=D7=A2=D7=A7=D7=A1=D7=98?=",
        ],
    );
}

#[test]
fn header_encode_keeps_chunks_together() {
    let mut out = VecWriter::new("utf8", EncodedWordEncoding::QuotedPrintable);
    assert_eq!(64, out.max_payload_len());
    let chunks: Vec<Vec<u8>> = vec![b"ab".to_vec(), vec![0xff; 21], b"c".to_vec()];
    header_encode(&chunks, &mut out);
    let got: Vec<&str> = out.data().iter().map(|x| x.as_str()).collect();
    assert_eq!(
        got,
        vec![
            "=?utf8?Q?ab?=",
            "=?utf8?Q?=FF=FF=FF=FF=FF=FF=FF=FF=FF=FF=FF=FF=FF=FF=FF=FF=FF=FF=FF=FF=FFc?="
        ]
    );
}

#[test]
fn base64_acronym() {
    assert_eq!("B", EncodedWordEncoding::Base64.acronym());
    assert_eq!("Q", EncodedWordEncoding::QuotedPrintable.acronym());
}
