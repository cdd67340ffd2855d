use mail_core::components::email::Email;
use mail_core::components::mailbox::Mailbox;
use mail_core::components::mailbox_list::MailboxList;
use mail_core::components::mime::Mime;
use mail_core::components::phrase::Phrase;
use mail_core::components::phrase_list::PhraseList;
use mail_core::components::unstructured::Unstructured;
use mail_core::error::HeaderError;
use mail_core::headers::default_header::{
    is_resent_name, Comments, ContentType, FromHeader, ResentFrom, ResentSender, ResentTo, Sender, Subject, To,
};
use mail_core::headers::map::{
    ComponentKind, ContextualValidator, Header, HeaderBody, HeaderEntry, HeaderMap, HeaderMeta,
};
use mail_core::headers::HeaderName;

fn text(s: &str) -> HeaderBody {
    HeaderBody::Unstructured(Unstructured::from_input(s.to_string()))
}

fn mailbox(addr: &str) -> Mailbox {
    Mailbox::from_email(Email::from_input(addr).unwrap())
}

fn named_mailbox(name: &str, addr: &str) -> Mailbox {
    Mailbox { display_name: Some(Phrase::from_input(name).unwrap()), email: Email::from_input(addr).unwrap() }
}

fn mailboxes(list: Vec<Mailbox>) -> HeaderBody {
    HeaderBody::MailboxList(MailboxList(list))
}

fn as_text(body: &HeaderBody) -> &str {
    match body {
        HeaderBody::Unstructured(u) => u.as_str(),
        _ => panic!("not unstructured"),
    }
}

fn resent_date_entry(date: &str) -> HeaderEntry {
    HeaderEntry {
        name: HeaderName::new("Resent-Date").unwrap(),
        body: text(date),
        meta: HeaderMeta { max_count_eq_1: false, contextual_validator: Some(ContextualValidator::ResentAny) },
    }
}

fn names(map: &HeaderMap) -> Vec<&'static str> {
    map.iter().iter().map(|e| e.name.as_str()).collect()
}

#[test]
fn get_single() {
    let mut headers = HeaderMap::new();
    headers.insert(Subject, text("abc")).unwrap();

    assert_eq!(false, headers.get_single(FromHeader).is_some());
    assert_eq!("abc", as_text(headers.get_single(Subject).unwrap().unwrap()));
}

#[test]
fn get_single_reports_other_component() {
    let mut headers = HeaderMap::new();
    headers
        .insert_entry(HeaderEntry {
            name: Subject::name(),
            body: HeaderBody::PhraseList(PhraseList(vec![])),
            meta: Subject::meta(),
        })
        .unwrap();
    let res = headers.get_single(Subject);
    assert_eq!(true, res.is_some());
    assert_eq!(res.unwrap().err(), Some(HeaderError::TypeMismatch));
}

#[test]
fn get_typed_and_untyped() {
    let mut headers = HeaderMap::new();
    headers.insert(Subject, text("abc")).unwrap();
    headers.insert(Comments, text("1st")).unwrap();
    headers
        .insert_entry(HeaderEntry {
            name: Comments::name(),
            body: HeaderBody::PhraseList(PhraseList(vec![Phrase::from_input("text plain").unwrap()])),
            meta: Comments::meta(),
        })
        .unwrap();

    let res = headers.get(Comments).unwrap();
    assert_eq!(2, res.len());
    assert_eq!("1st", as_text(res[0].unwrap()));
    assert_eq!(res[1].err(), Some(HeaderError::TypeMismatch));

    let untyped = headers.get_untyped(&Subject::name()).unwrap();
    assert_eq!(vec!["abc"], untyped.iter().map(|b| as_text(b)).collect::<Vec<_>>());
    let untyped = headers.get_untyped(&Comments::name()).unwrap();
    assert_eq!(2, untyped.len());
    assert_eq!(ComponentKind::PhraseList, untyped[1].kind());
    assert!(headers.get_untyped(&To::name()).is_none());
}

#[test]
fn insert_counts_fields_of_the_name() {
    let mut headers = HeaderMap::new();
    assert_eq!(Ok(1), headers.insert(Comments, text("a")));
    assert_eq!(Ok(1), headers.insert(Subject, text("b")));
    assert_eq!(Ok(2), headers.insert(Comments, text("c")));
    assert_eq!(2, headers.count(&Comments::name()));
}

#[test]
fn insert_refuses_other_meta() {
    let mut headers = HeaderMap::new();
    headers.insert(Subject, text("abc")).unwrap();
    let res = headers.insert_entry(HeaderEntry {
        name: Subject::name(),
        body: text("def"),
        meta: Comments::meta(),
    });
    assert_eq!(Err(HeaderError::MetaMismatch), res);
    assert_eq!(1, headers.len());
}

#[test]
fn extend_keeps_order() {
    let mut headers = HeaderMap::new();
    headers.insert(To, mailboxes(vec![mailbox("ab@c")])).unwrap();

    let mut other = HeaderMap::new();
    other.insert(Subject, text("hy there")).unwrap();
    other.insert(FromHeader, mailboxes(vec![mailbox("magic@spell")])).unwrap();
    assert!(headers.extend(other).is_ok());

    assert_eq!(vec!["To", "Subject", "From"], names(&headers));
}

#[test]
fn extend_hands_back_refused_fields() {
    let mut headers = HeaderMap::new();
    headers.insert(Subject, text("a")).unwrap();
    let mut other = HeaderMap::new();
    other
        .insert_entry(HeaderEntry { name: Subject::name(), body: text("b"), meta: Comments::meta() })
        .unwrap();
    other.insert(Comments, text("c")).unwrap();
    let refused = headers.extend(other).unwrap_err();
    assert_eq!(1, refused.len());
    assert_eq!("b", as_text(&refused[0].body));
    assert_eq!(vec!["Subject", "Comments"], names(&headers));
}

fn comments_and_subject() -> HeaderMap {
    let mut headers = HeaderMap::new();
    headers.insert(Comments, text("a")).unwrap();
    headers.insert(Subject, text("b")).unwrap();
    headers.insert(Comments, text("c")).unwrap();
    headers.insert(Comments, text("d")).unwrap();
    headers
}

#[test]
fn remove_1() {
    let mut headers = comments_and_subject();

    assert_eq!(false, headers.remove_by_name(&FromHeader::name()));
    assert_eq!(true, headers.remove_by_name(&Subject::name()));

    assert_eq!(3, headers.iter().len());

    let values = headers
        .get(Comments)
        .unwrap()
        .into_iter()
        .map(|comp| as_text(comp.unwrap()))
        .collect::<Vec<_>>();

    assert_eq!(&["a", "c", "d"], values.as_slice())
}

#[test]
fn remove_2() {
    let mut headers = comments_and_subject();

    assert_eq!(true, headers.remove_by_name(&Comments::name()));
    assert_eq!(false, headers.remove_by_name(&Comments::name()));

    assert_eq!(1, headers.iter().len());

    let values = headers
        .get(Subject)
        .unwrap()
        .into_iter()
        .map(|comp| as_text(comp.unwrap()))
        .collect::<Vec<_>>();

    assert_eq!(&["b"], values.as_slice());
}

#[test]
fn contains_works() {
    let mut map = HeaderMap::new();
    map.insert(Subject, text("soso")).unwrap();

    assert_eq!(true, map.contains(&Subject::name()));
    assert_eq!(false, map.contains(&Comments::name()));
}

#[test]
fn meta_compatibility() {
    assert!(Subject::meta().is_compatible(&HeaderMeta::from_header_type::<Subject>()));
    assert!(!Subject::meta().is_compatible(&Comments::meta()));
    assert_eq!(Err(HeaderError::MetaMismatch), FromHeader::meta().check_update(&To::meta()));
    assert_eq!(Ok(()), To::meta().check_update(&Subject::meta()));
}

#[test]
fn resent_names() {
    assert!(is_resent_name(&ResentFrom::name()));
    assert!(is_resent_name(&HeaderName::new("Resent-").unwrap()));
    assert!(!is_resent_name(&HeaderName::new("Resend-From").unwrap()));
    assert!(!is_resent_name(&FromHeader::name()));
}

#[test]
fn from_validation_normal() {
    let mut map = HeaderMap::new();
    map.insert(FromHeader, mailboxes(vec![named_mailbox("Mr. Peté", "pete@nixmail.nixdomain")])).unwrap();
    map.insert(Subject, text("Ok")).unwrap();

    assert!(map.use_contextual_validators().is_ok());
}

#[test]
fn from_validation_multi_err() {
    let mut map = HeaderMap::new();
    map.insert(
        FromHeader,
        mailboxes(vec![named_mailbox("Mr. Peté", "nixperson@nixmail.nixdomain"), mailbox("a@b.c")]),
    )
    .unwrap();
    map.insert(Subject, text("Ok")).unwrap();

    assert_eq!(Err(HeaderError::MultiMailboxFromWithoutSender), map.use_contextual_validators());
}

#[test]
fn from_validation_multi_ok() {
    let mut map = HeaderMap::new();
    map.insert(
        FromHeader,
        mailboxes(vec![named_mailbox("Mr. Peté", "nixperson@nixmail.nixdomain"), mailbox("a@b.c")]),
    )
    .unwrap();
    map.insert(Sender, HeaderBody::Mailbox(mailbox("abx@d.e"))).unwrap();
    map.insert(Subject, text("Ok")).unwrap();

    assert!(map.use_contextual_validators().is_ok());
}

#[test]
fn resent_no_date_err() {
    let mut map = HeaderMap::new();
    map.insert(ResentFrom, mailboxes(vec![mailbox("a@b.c")])).unwrap();
    assert_eq!(Err(HeaderError::ResentBlockWithoutDate), map.use_contextual_validators());
}

#[test]
fn resent_block_with_date() {
    let mut map = HeaderMap::new();
    map.insert(ResentFrom, mailboxes(vec![mailbox("a@b.c")])).unwrap();
    map.insert_entry(resent_date_entry("Tue, 1 Jul 2003 10:52:37 +0200")).unwrap();
    assert!(map.use_contextual_validators().is_ok());
}

#[test]
fn resent_second_block_without_date() {
    let mut map = HeaderMap::new();
    map.insert_entry(resent_date_entry("Tue, 1 Jul 2003 10:52:37 +0200")).unwrap();
    map.insert(ResentFrom, mailboxes(vec![mailbox("a@b.c")])).unwrap();
    map.insert(ResentTo, mailboxes(vec![mailbox("e@f.d")])).unwrap();
    map.insert(ResentFrom, mailboxes(vec![mailbox("ee@ee.e")])).unwrap();
    assert_eq!(Err(HeaderError::ResentBlockWithoutDate), map.use_contextual_validators());
}

#[test]
fn resent_second_block_with_date() {
    let mut map = HeaderMap::new();
    map.insert_entry(resent_date_entry("Tue, 1 Jul 2003 10:52:37 +0200")).unwrap();
    map.insert(ResentFrom, mailboxes(vec![mailbox("a@b.c")])).unwrap();
    map.insert(ResentTo, mailboxes(vec![mailbox("e@f.d")])).unwrap();
    map.insert(ResentFrom, mailboxes(vec![mailbox("ee@ee.e")])).unwrap();
    map.insert_entry(resent_date_entry("Wed, 2 Jul 2003 10:52:37 +0200")).unwrap();
    assert!(map.use_contextual_validators().is_ok());
}

#[test]
fn resent_multi_mailbox_from_without_sender() {
    let mut map = HeaderMap::new();
    map.insert_entry(resent_date_entry("Tue, 1 Jul 2003 10:52:37 +0200")).unwrap();
    map.insert(ResentFrom, mailboxes(vec![mailbox("a@b.c"), mailbox("e@c.d")])).unwrap();
    assert_eq!(Err(HeaderError::ResentBlockWithoutSender), map.use_contextual_validators());
}

#[test]
fn resent_multi_mailbox_from_with_sender_is_ok() {
    let mut map = HeaderMap::new();
    map.insert_entry(resent_date_entry("Tue, 1 Jul 2003 10:52:37 +0200")).unwrap();
    map.insert(ResentFrom, mailboxes(vec![mailbox("a@b.c"), mailbox("e@c.d")])).unwrap();
    map.insert(ResentSender, HeaderBody::Mailbox(mailbox("a@b.c"))).unwrap();
    assert!(map.use_contextual_validators().is_ok());
}

#[test]
fn validators_run_in_order_of_first_appearance() {
    let mut map = HeaderMap::new();
    map.insert(ResentFrom, mailboxes(vec![mailbox("a@b.c")])).unwrap();
    map.insert(FromHeader, mailboxes(vec![mailbox("a@b.c"), mailbox("e@c.d")])).unwrap();
    assert_eq!(Err(HeaderError::ResentBlockWithoutDate), map.use_contextual_validators());

    let mut map = HeaderMap::new();
    map.insert(FromHeader, mailboxes(vec![mailbox("a@b.c"), mailbox("e@c.d")])).unwrap();
    map.insert(ResentFrom, mailboxes(vec![mailbox("a@b.c")])).unwrap();
    assert_eq!(Err(HeaderError::MultiMailboxFromWithoutSender), map.use_contextual_validators());
}

#[test]
fn no_validators_no_error() {
    let mut map = HeaderMap::new();
    map.insert(Subject, text("x")).unwrap();
    map.insert(Comments, text("y")).unwrap();
    assert_eq!(Ok(()), map.use_contextual_validators());
}

#[test]
fn into_iter() {
    const TEST_TEXT: &str = "this is a subject";
    let mut headers = HeaderMap::new();
    headers.insert(To, mailboxes(vec![mailbox("affen@haus")])).unwrap();
    headers.insert(Subject, text(TEST_TEXT)).unwrap();
    headers.insert(FromHeader, mailboxes(vec![mailbox("nix@da"), mailbox("ja@wohl")])).unwrap();

    let headers = headers
        .into_iter_with_meta()
        .into_iter()
        .map(|entry| (entry.name.as_str(), entry.body))
        .collect::<Vec<_>>();
    assert_eq!(3, headers.len());
    assert_eq!("To", headers[0].0);
    assert_eq!("Subject", headers[1].0);
    assert_eq!("From", headers[2].0);

    assert_eq!(TEST_TEXT, as_text(&headers[1].1));
}

#[test]
fn type_argument_variants() {
    let mut headers = HeaderMap::new();
    assert_eq!(Ok(1), headers._insert::<Subject>(text("abc")));
    assert_eq!("abc", as_text(headers._get_single::<Subject>().unwrap().unwrap()));
    assert_eq!(1, headers._get::<Subject>().unwrap().len());
    assert!(headers._get::<Comments>().is_none());
}

#[test]
fn headers_macro() {
    let mut headers = HeaderMap::new();
    headers
        .insert(ContentType, HeaderBody::Mime(Mime::try_from("text/plain; charset=us-ascii").unwrap()))
        .unwrap();
    headers.insert(Subject, text("Having a lot of fun")).unwrap();
    headers
        .insert(FromHeader, mailboxes(vec![named_mailbox("Bla Blup", "bla.blub@not.a.domain")]))
        .unwrap();

    let count = headers.get(ContentType).expect("content type header must be present").len();
    assert_eq!(1, count);
    assert!(headers.get(ContentType).unwrap()[0].is_ok());
    let count = headers.get(Subject).expect("content type header must be present").len();
    assert_eq!(1, count);
    let count = headers.get(FromHeader).expect("content type header must be present").len();
    assert_eq!(1, count);
}
