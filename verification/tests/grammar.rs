use mail_core::grammar::{is_ascii_vchar, is_ctl, is_ftext, is_token, is_token_char};

#[test]
fn _is_ascii_vchar() {
    assert_eq!(false, is_ascii_vchar('\x7f'));
    for bad_char in b'\0'..b' ' {
        if is_ascii_vchar(bad_char as char) {
            panic!("{:?} should not be a VCHAR", bad_char);
        }
    }
    for good_char in b'!'..(b'~' + 1) {
        if !is_ascii_vchar(good_char as char) {
            panic!("{:?} should be a VCHAR", good_char as char);
        }
    }
}

#[test]
fn htap_is_ctl_space_is_not() {
    assert_eq!(true, is_ctl('\t'));
    assert_eq!(false, is_ctl(' '));
}

#[test]
fn is_toke_empty() {
    assert_eq!(false, is_token(""));
}

#[test]
fn ftext_ctl_and_token_chars() {
    assert!(is_ftext('A'));
    assert!(is_ftext('~'));
    assert!(!is_ftext(':'));
    assert!(!is_ftext(' '));
    assert!(!is_ftext('\t'));
    assert!(!is_ftext('\x7f'));
    assert!(is_ctl('\x7f'));
    assert!(!is_token_char('\x7f'));
    assert!(is_token_char('a'));
    assert!(!mail_core::char_validators::is_ascii_vchar('\x7f'));
    assert!(mail_core::char_validators::is_ascii_vchar('~'));
}
