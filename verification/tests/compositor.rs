use mail_core::compositor::composition_base::{SharedCompositionBase, SimpleCompositionBase};
use mail_core::compositor::{MailSendData, MailSendDataBuilder};
use mail_core::error::{MailSendDataErrorKind, WithSource};

fn full_builder() -> MailSendDataBuilder<String, String, u32> {
    let mut b = MailSendDataBuilder::<String, String, u32>::new();
    b.add_from("a@b.c".to_string())
        .add_to("d@e.f".to_string())
        .subject("hy there")
        .template("greeting".to_string())
        .data(42);
    b
}

#[test]
fn build_with_all_fields() {
    let data = full_builder().build().ok().unwrap();
    assert_eq!(data.sender(), "a@b.c");
    assert_eq!(data._from(), &vec!["a@b.c".to_string()]);
    assert_eq!(data._to(), &vec!["d@e.f".to_string()]);
    assert_eq!(data.subject(), "hy there");
    assert_eq!(data.template(), "greeting");
    assert_eq!(*data.data(), 42);
}

#[test]
fn build_reports_first_missing_field() {
    let b = MailSendDataBuilder::<String, String, u32>::new();
    let err = b.build().err().unwrap();
    assert_eq!(*err.error(), MailSendDataErrorKind::MissingFrom);

    let mut b = MailSendDataBuilder::<String, String, u32>::new();
    b.add_from("a@b.c".to_string());
    assert_eq!(*b.build().err().unwrap().error(), MailSendDataErrorKind::MissingTo);

    let mut b = MailSendDataBuilder::<String, String, u32>::new();
    b.add_from("a@b.c".to_string()).add_to("d@e.f".to_string());
    assert_eq!(*b.build().err().unwrap().error(), MailSendDataErrorKind::MissingSubject);

    let mut b = MailSendDataBuilder::<String, String, u32>::new();
    b.add_from("a@b.c".to_string()).add_to("d@e.f".to_string()).subject("s");
    assert_eq!(*b.build().err().unwrap().error(), MailSendDataErrorKind::MissingTemplateId);

    let mut b = MailSendDataBuilder::<String, String, u32>::new();
    b.add_from("a@b.c".to_string())
        .add_to("d@e.f".to_string())
        .subject("s")
        .template("t".to_string());
    assert_eq!(*b.build().err().unwrap().error(), MailSendDataErrorKind::MissingTemplateData);
}

#[test]
fn multiple_from_need_a_sender() {
    let mut b = full_builder();
    b.add_from("x@y.z".to_string());
    let err = b.build().err().unwrap();
    assert_eq!(*err.error(), MailSendDataErrorKind::MultiFromButNoSender);
    let (_kind, mut b) = err.split();
    b.sender("s@e.n".to_string());
    let data = b.build().ok().unwrap();
    assert_eq!(data.sender(), "s@e.n");
    assert_eq!(data._from().len(), 3);
    assert_eq!(data._from()[0], "s@e.n");
}

#[test]
fn simple_new_and_destruct() {
    let mut data = MailSendData::simple_new(
        "a@b".to_string(),
        "c@d".to_string(),
        "subj".to_string(),
        "tid".to_string(),
        7u8,
    );
    assert_eq!(data.sender(), "a@b");
    data.subject_mut().push('!');
    *data.data_mut() = 8;
    let (sender, from, to, subject, tid, d) = data.destruct();
    assert_eq!(sender, None);
    assert_eq!(from, vec!["a@b".to_string()]);
    assert_eq!(to, vec!["c@d".to_string()]);
    assert_eq!(subject, "subj!");
    assert_eq!(tid, "tid");
    assert_eq!(d, 8);
}

#[test]
fn with_source_keeps_both() {
    let w = WithSource::new(1u8, "src".to_string());
    assert_eq!(*w.error(), 1);
    assert_eq!(w.source(), "src");
    assert_eq!(w.into_source(), "src");
    let w = WithSource::new(2u8, 3u8);
    assert_eq!(w.split(), (2, 3));
}

#[test]
fn composition_bases_give_back_their_parts() {
    let mut base = SimpleCompositionBase::new(1u8, "engine".to_string());
    *base.context_mut() = 2;
    assert_eq!(*base.context(), 2);
    assert_eq!(base.template_engine(), "engine");
    let shared = SharedCompositionBase::new(3u8, 4u16);
    assert_eq!(*shared.context(), 3);
    assert_eq!(*shared.template_engine(), 4);
}
