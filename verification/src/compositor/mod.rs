//! The per-mail data needed to compose a mail from a template, and its
//! builder.
use vstd::prelude::*;

use crate::error::{MailSendDataErrorKind, WithSource};
use crate::utils::{str_chars, string_from_chars};

pub mod composition_base;

verus! {

/// The data of `MailSendData` as plain values.
pub ghost struct MailSendDataView<M, T, D> {
    pub sender: Option<M>,
    pub from: Seq<M>,
    pub to: Seq<M>,
    pub subject: Seq<char>,
    pub template_id: T,
    pub data: D,
}

/// All per-mail information: sender (if any), from (1+ mailboxes),
/// to (1+ mailboxes), subject, template id and the data for the template.
///
/// It always holds that
/// 1. if there is more than one mailbox in from then there is a sender,
/// 2. there is at least one mailbox in from,
/// 3. there is at least one mailbox in to.
pub struct MailSendData<M, T, D> {
    sender: Option<M>,
    from: Vec<M>,
    to: Vec<M>,
    subject: String,
    template_id: T,
    data: D,
}

/// The constraints `MailSendData` always keeps.
pub open spec fn send_data_ok<M, T, D>(v: MailSendDataView<M, T, D>) -> bool {
    &&& v.from.len() > 1 ==> v.sender is Some
    &&& v.from.len() >= 1
    &&& v.to.len() >= 1
}

impl<M, T, D> View for MailSendData<M, T, D> {
    type V = MailSendDataView<M, T, D>;

    closed spec fn view(&self) -> MailSendDataView<M, T, D> {
        MailSendDataView {
            sender: self.sender,
            from: self.from@,
            to: self.to@,
            subject: self.subject@,
            template_id: self.template_id,
            data: self.data,
        }
    }
}

impl<M, T, D> MailSendData<M, T, D> {
    /// The constraints hold (which they do for any value made by
    /// `simple_new` or `MailSendDataBuilder::build` and kept by all
    /// methods).
    pub open spec fn wf(&self) -> bool {
        send_data_ok(self@)
    }

    /// Data with one from and one to mailbox and no sender.
    pub fn simple_new(from: M, to: M, subject: String, template_id: T, data: D) -> (r: Self)
        ensures
            r@ == (MailSendDataView {
                sender: None,
                from: seq![from],
                to: seq![to],
                subject: subject@,
                template_id,
                data,
            }),
            send_data_ok(r@),
    {
        let mut from_list: Vec<M> = Vec::new();
        from_list.push(from);
        let mut to_list: Vec<M> = Vec::new();
        to_list.push(to);
        let r = MailSendData {
            sender: None,
            from: from_list,
            to: to_list,
            subject,
            template_id,
            data,
        };
        proof {
            assert(r@.from =~= seq![from]);
            assert(r@.to =~= seq![to]);
        }
        r
    }

    /// The sender: the one explicitly set, else the first (and only)
    /// from mailbox.
    pub fn sender(&self) -> (r: &M)
        requires
            self.wf(),
        ensures
            *r == (match self@.sender {
                Some(s) => s,
                None => self@.from[0],
            }),
    {
        match &self.sender {
            Some(s) => s,
            None => &self.from[0],
        }
    }

    /// The from mailboxes.
    pub fn _from(&self) -> (r: &Vec<M>)
        ensures
            r@ == self@.from,
    {
        &self.from
    }

    /// The to mailboxes.
    pub fn _to(&self) -> (r: &Vec<M>)
        ensures
            r@ == self@.to,
    {
        &self.to
    }

    /// The subject.
    pub fn subject(&self) -> (r: &str)
        ensures
            r@ == self@.subject,
    {
        self.subject.as_str()
    }

    /// The subject, for changing it.
    pub fn subject_mut(&mut self) -> (r: &mut String)
        ensures
            r@ == old(self)@.subject,
            final(self)@ == (MailSendDataView { subject: final(r)@, ..old(self)@ }),
    {
        &mut self.subject
    }

    /// The template id.
    pub fn template(&self) -> (r: &T)
        ensures
            *r == self@.template_id,
    {
        &self.template_id
    }

    /// The template id, for changing it.
    pub fn template_mut(&mut self) -> (r: &mut T)
        ensures
            *r == old(self)@.template_id,
            final(self)@ == (MailSendDataView { template_id: *final(r), ..old(self)@ }),
    {
        &mut self.template_id
    }

    /// The data for the template.
    pub fn data(&self) -> (r: &D)
        ensures
            *r == self@.data,
    {
        &self.data
    }

    /// The data for the template, for changing it.
    pub fn data_mut(&mut self) -> (r: &mut D)
        ensures
            *r == old(self)@.data,
            final(self)@ == (MailSendDataView { data: *final(r), ..old(self)@ }),
    {
        &mut self.data
    }

    /// All parts: sender, from, to, subject, template id and data.
    pub fn destruct(self) -> (r: (Option<M>, Vec<M>, Vec<M>, String, T, D))
        ensures
            r.0 == self@.sender,
            r.1@ == self@.from,
            r.2@ == self@.to,
            r.3@ == self@.subject,
            r.4 == self@.template_id,
            r.5 == self@.data,
    {
        let MailSendData { sender, from, to, subject, template_id, data } = self;
        (sender, from, to, subject, template_id, data)
    }
}

/// The state of a `MailSendDataBuilder` as plain values.
pub ghost struct BuilderView<M, T, D> {
    pub sender: Option<M>,
    pub from: Seq<M>,
    pub to: Seq<M>,
    pub subject: Option<Seq<char>>,
    pub template_id: Option<T>,
    pub data: Option<D>,
}

/// The first field which is missing, in the order from, to, subject,
/// template id, data.
pub open spec fn first_missing<M, T, D>(b: BuilderView<M, T, D>) -> Option<MailSendDataErrorKind> {
    if b.from.len() == 0 {
        Some(MailSendDataErrorKind::MissingFrom)
    } else if b.to.len() == 0 {
        Some(MailSendDataErrorKind::MissingTo)
    } else if b.subject is None {
        Some(MailSendDataErrorKind::MissingSubject)
    } else if b.template_id is None {
        Some(MailSendDataErrorKind::MissingTemplateId)
    } else if b.data is None {
        Some(MailSendDataErrorKind::MissingTemplateData)
    } else {
        None
    }
}

/// Why `build` fails on a builder in state `b`, if it does.
pub open spec fn build_error<M, T, D>(b: BuilderView<M, T, D>) -> Option<MailSendDataErrorKind> {
    if first_missing(b) is Some {
        first_missing(b)
    } else if b.from.len() > 1 && b.sender is None {
        Some(MailSendDataErrorKind::MultiFromButNoSender)
    } else {
        None
    }
}

/// Builder to create `MailSendData`.
pub struct MailSendDataBuilder<M, T, D> {
    sender: Option<M>,
    from: Vec<M>,
    to: Vec<M>,
    subject: Option<String>,
    template_id: Option<T>,
    data: Option<D>,
}

impl<M, T, D> View for MailSendDataBuilder<M, T, D> {
    type V = BuilderView<M, T, D>;

    closed spec fn view(&self) -> BuilderView<M, T, D> {
        BuilderView {
            sender: self.sender,
            from: self.from@,
            to: self.to@,
            subject: match self.subject {
                Some(s) => Some(s@),
                None => None,
            },
            template_id: self.template_id,
            data: self.data,
        }
    }
}

impl<M: Clone, T, D> MailSendDataBuilder<M, T, D> {
    /// A builder with nothing set.
    pub fn new() -> (r: Self)
        ensures
            r@ == (BuilderView::<M, T, D> {
                sender: None,
                from: Seq::empty(),
                to: Seq::empty(),
                subject: None,
                template_id: None,
                data: None,
            }),
    {
        let r = MailSendDataBuilder {
            sender: None,
            from: Vec::new(),
            to: Vec::new(),
            subject: None,
            template_id: None,
            data: None,
        };
        proof {
            assert(r@.from =~= Seq::<M>::empty());
            assert(r@.to =~= Seq::<M>::empty());
        }
        r
    }

    /// Adds a mailbox to the from mailboxes.
    pub fn add_from(&mut self, mb: M) -> (r: &mut Self)
        ensures
            r@ == (BuilderView { from: old(self)@.from.push(mb), ..old(self)@ }),
            *final(self) == *final(r),
    {
        self.from.push(mb);
        self
    }

    /// Adds a mailbox to the to mailboxes.
    pub fn add_to(&mut self, mb: M) -> (r: &mut Self)
        ensures
            r@ == (BuilderView { to: old(self)@.to.push(mb), ..old(self)@ }),
            *final(self) == *final(r),
    {
        self.to.push(mb);
        self
    }

    /// Sets the sender to `mb` and inserts it at the front of the from
    /// mailboxes.
    ///
    /// If a sender was set before it is overridden, but it stays in the
    /// from mailboxes.
    pub fn sender(&mut self, mb: M) -> (r: &mut Self)
        ensures
            r@.from == seq![mb] + old(self)@.from,
            r@.sender matches Some(s) && cloned(mb, s),
            r@.to == old(self)@.to,
            r@.subject == old(self)@.subject,
            r@.template_id == old(self)@.template_id,
            r@.data == old(self)@.data,
            *final(self) == *final(r),
    {
        self.sender = Some(mb.clone());
        self.from.insert(0, mb);
        proof {
            assert(self.from@ =~= seq![mb] + old(self)@.from);
        }
        self
    }

    /// Sets the subject, overriding one set before.
    pub fn subject(&mut self, sbj: &str) -> (r: &mut Self)
        ensures
            r@ == (BuilderView { subject: Some(sbj@), ..old(self)@ }),
            *final(self) == *final(r),
    {
        self.subject = Some(string_from_chars(str_chars(sbj).as_slice()));
        self
    }

    /// Sets the template id, overriding one set before.
    pub fn template(&mut self, tid: T) -> (r: &mut Self)
        ensures
            r@ == (BuilderView { template_id: Some(tid), ..old(self)@ }),
            *final(self) == *final(r),
    {
        self.template_id = Some(tid);
        self
    }

    /// Sets the data, overriding data set before.
    pub fn data(&mut self, data: D) -> (r: &mut Self)
        ensures
            r@ == (BuilderView { data: Some(data), ..old(self)@ }),
            *final(self) == *final(r),
    {
        self.data = Some(data);
        self
    }

    /// Creates the `MailSendData` if all of from, to, subject, template id
    /// and data are set and, if there is more than one from mailbox, a
    /// sender is set; else gives back the error with the builder.
    pub fn build(self) -> (r: Result<MailSendData<M, T, D>, WithSource<MailSendDataErrorKind, Self>>)
        ensures
            match build_error(self@) {
                Some(kind) => r matches Err(e) && e.spec_error() == kind && e.spec_source()@ == self@,
                None => r matches Ok(d) && d@ == (MailSendDataView {
                    sender: self@.sender,
                    from: self@.from,
                    to: self@.to,
                    subject: self@.subject->0,
                    template_id: self@.template_id->0,
                    data: self@.data->0,
                }) && send_data_ok(d@),
            },
    {
        match self.check_fields_are_set() {
            Ok(()) => {},
            Err(kind) => return Err(WithSource::new(kind, self)),
        }
        if self.from.len() > 1 && self.sender.is_none() {
            return Err(WithSource::new(MailSendDataErrorKind::MultiFromButNoSender, self));
        }
        let MailSendDataBuilder { sender, from, to, subject, template_id, data } = self;
        match (subject, template_id, data) {
            (Some(subject), Some(template_id), Some(data)) => Ok(
                MailSendData { sender, from, to, subject, template_id, data },
            ),
            _ => vstd::pervasive::unreached(),
        }
    }

    /// Fails with the first missing field, in the order from, to,
    /// subject, template id, data.
    fn check_fields_are_set(&self) -> (r: Result<(), MailSendDataErrorKind>)
        ensures
            match first_missing(self@) {
                Some(kind) => r == Err::<(), MailSendDataErrorKind>(kind),
                None => r is Ok,
            },
    {
        if self.from.len() == 0 {
            Err(MailSendDataErrorKind::MissingFrom)
        } else if self.to.len() == 0 {
            Err(MailSendDataErrorKind::MissingTo)
        } else if self.subject.is_none() {
            Err(MailSendDataErrorKind::MissingSubject)
        } else if self.template_id.is_none() {
            Err(MailSendDataErrorKind::MissingTemplateId)
        } else if self.data.is_none() {
            Err(MailSendDataErrorKind::MissingTemplateData)
        } else {
            Ok(())
        }
    }
}

/// `build` succeeds exactly when from, to, subject, template id and data
/// are set and a sender is set if there is more than one from mailbox;
/// the data it builds always has at least one from and one to mailbox,
/// and a sender if there are several from mailboxes.
pub proof fn lemma_build_succeeds_iff<M, T, D>(b: BuilderView<M, T, D>)
    ensures
        build_error(b) is None <==> (b.from.len() >= 1 && b.to.len() >= 1 && b.subject is Some
            && b.template_id is Some && b.data is Some && (b.from.len() > 1 ==> b.sender is Some)),
        build_error(b) is None ==> send_data_ok(
            MailSendDataView {
                sender: b.sender,
                from: b.from,
                to: b.to,
                subject: b.subject->0,
                template_id: b.template_id->0,
                data: b.data->0,
            },
        ),
{
}

} // verus!
