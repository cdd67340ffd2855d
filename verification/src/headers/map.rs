//! A map of header fields which keeps the order in which they were inserted
//! and may hold several fields with the same name.
use vstd::prelude::*;

use crate::components::disposition::Disposition;
use crate::components::mailbox::Mailbox;
use crate::components::mailbox_list::{MailboxList, OptMailboxList};
use crate::components::message_id::{MessageID, MessageIDList};
use crate::components::mime::Mime;
use crate::components::path::Path;
use crate::components::phrase_list::PhraseList;
use crate::components::received_token::ReceivedToken;
use crate::components::transfer_encoding::TransferEncoding;
use crate::components::unstructured::Unstructured;
use crate::error::HeaderError;
use crate::headers::{HeaderName, SingularHeaderMarker};
use crate::utils::str_eq;

verus! {

/// The contextual validators a header can carry: checks which look at the
/// whole map, not at one header field alone.
#[derive(Debug, Clone, Copy, PartialEq, Eq, Structural)]
pub enum ContextualValidator {
    /// a multi-mailbox `From` needs a `Sender`
    FromSender,
    /// each block of resent headers needs a `Resent-Date`, and a
    /// `Resent-Sender` if its `Resent-From` has several mailboxes
    ResentAny,
}

/// What all header fields with the same name share: whether the header may
/// appear only once, and its contextual validator.
#[derive(Debug, Clone, Copy, PartialEq, Eq, Structural)]
pub struct HeaderMeta {
    pub max_count_eq_1: bool,
    pub contextual_validator: Option<ContextualValidator>,
}

impl HeaderMeta {
    /// The meta data of the header type `H`.
    pub fn from_header_type<H: Header>() -> (r: HeaderMeta)
        ensures
            r == H::spec_meta(),
    {
        H::meta()
    }

    /// Fields of two headers can share a name only if their meta data is
    /// the same; fails with `MetaMismatch` otherwise.
    pub fn check_update(&self, other: &HeaderMeta) -> (r: Result<(), HeaderError>)
        ensures
            *self == *other ==> r == Ok::<(), HeaderError>(()),
            *self != *other ==> r == Err::<(), HeaderError>(HeaderError::MetaMismatch),
    {
        if self.max_count_eq_1 != other.max_count_eq_1 {
            return Err(HeaderError::MetaMismatch);
        }
        if self.contextual_validator != other.contextual_validator {
            return Err(HeaderError::MetaMismatch);
        }
        Ok(())
    }

    /// Whether fields with these two meta data can share a name.
    pub fn is_compatible(&self, other: &HeaderMeta) -> (r: bool)
        ensures
            r == (*self == *other),
    {
        self.check_update(other).is_ok()
    }
}

/// The component types a header body can have.
#[derive(Debug, Clone, Copy, PartialEq, Eq, Structural)]
pub enum ComponentKind {
    Unstructured,
    Mailbox,
    MailboxList,
    OptMailboxList,
    MessageId,
    MessageIdList,
    PhraseList,
    Path,
    ReceivedToken,
    TransferEncoding,
    Disposition,
    Mime,
}

/// The body of a header field: one of the library's components.
pub enum HeaderBody {
    Unstructured(Unstructured),
    Mailbox(Mailbox),
    MailboxList(MailboxList),
    OptMailboxList(OptMailboxList),
    MessageId(MessageID),
    MessageIdList(MessageIDList),
    PhraseList(PhraseList),
    Path(Path),
    ReceivedToken(ReceivedToken),
    TransferEncoding(TransferEncoding),
    Disposition(Disposition),
    Mime(Mime),
}

impl HeaderBody {
    pub open spec fn spec_kind(&self) -> ComponentKind {
        match self {
            HeaderBody::Unstructured(_) => ComponentKind::Unstructured,
            HeaderBody::Mailbox(_) => ComponentKind::Mailbox,
            HeaderBody::MailboxList(_) => ComponentKind::MailboxList,
            HeaderBody::OptMailboxList(_) => ComponentKind::OptMailboxList,
            HeaderBody::MessageId(_) => ComponentKind::MessageId,
            HeaderBody::MessageIdList(_) => ComponentKind::MessageIdList,
            HeaderBody::PhraseList(_) => ComponentKind::PhraseList,
            HeaderBody::Path(_) => ComponentKind::Path,
            HeaderBody::ReceivedToken(_) => ComponentKind::ReceivedToken,
            HeaderBody::TransferEncoding(_) => ComponentKind::TransferEncoding,
            HeaderBody::Disposition(_) => ComponentKind::Disposition,
            HeaderBody::Mime(_) => ComponentKind::Mime,
        }
    }

    /// The component type of this body.
    pub fn kind(&self) -> (r: ComponentKind)
        ensures
            r == self.spec_kind(),
    {
        match self {
            HeaderBody::Unstructured(_) => ComponentKind::Unstructured,
            HeaderBody::Mailbox(_) => ComponentKind::Mailbox,
            HeaderBody::MailboxList(_) => ComponentKind::MailboxList,
            HeaderBody::OptMailboxList(_) => ComponentKind::OptMailboxList,
            HeaderBody::MessageId(_) => ComponentKind::MessageId,
            HeaderBody::MessageIdList(_) => ComponentKind::MessageIdList,
            HeaderBody::PhraseList(_) => ComponentKind::PhraseList,
            HeaderBody::Path(_) => ComponentKind::Path,
            HeaderBody::ReceivedToken(_) => ComponentKind::ReceivedToken,
            HeaderBody::TransferEncoding(_) => ComponentKind::TransferEncoding,
            HeaderBody::Disposition(_) => ComponentKind::Disposition,
            HeaderBody::Mime(_) => ComponentKind::Mime,
        }
    }

    /// A mailbox list holding more than one mailbox.
    pub open spec fn spec_is_multi_mailbox_list(&self) -> bool {
        self matches HeaderBody::MailboxList(l) && l.0@.len() > 1
    }

    /// Whether this body is a mailbox list holding more than one mailbox.
    pub fn is_multi_mailbox_list(&self) -> (r: bool)
        ensures
            r == self.spec_is_multi_mailbox_list(),
    {
        match self {
            HeaderBody::MailboxList(l) => l.0.len() > 1,
            _ => false,
        }
    }
}

/// A header type: its name, its meta data and the component type of its
/// body.
pub trait Header {
    spec fn spec_name() -> Seq<char>;

    spec fn spec_meta() -> HeaderMeta;

    spec fn spec_component() -> ComponentKind;

    /// The header's name.
    fn name() -> (r: HeaderName)
        ensures
            r@ == Self::spec_name(),
    ;

    /// Whether the header may appear only once, and its validator.
    fn meta() -> (r: HeaderMeta)
        ensures
            r == Self::spec_meta(),
    ;

    /// The component type of the header's body.
    fn component() -> (r: ComponentKind)
        ensures
            r == Self::spec_component(),
    ;
}

/// One header field of a map: its name, its body and the meta data of its
/// header.
pub struct HeaderEntry {
    pub name: HeaderName,
    pub body: HeaderBody,
    pub meta: HeaderMeta,
}

/// Whether the entry has the name `n`.
pub open spec fn named(n: Seq<char>) -> spec_fn(HeaderEntry) -> bool {
    |e: HeaderEntry| e.name@ == n
}

/// The entries named `n`, in their order.
pub open spec fn entries_named(s: Seq<HeaderEntry>, n: Seq<char>) -> Seq<HeaderEntry> {
    s.filter(named(n))
}

/// Whether some entry is named `n`.
pub open spec fn has_entry_named(s: Seq<HeaderEntry>, n: Seq<char>) -> bool {
    exists|i: int| 0 <= i < s.len() && (#[trigger] s[i]).name@ == n
}

/// Entries with the same name have the same meta data.
pub open spec fn metas_agree(s: Seq<HeaderEntry>) -> bool {
    forall|i: int, j: int|
        0 <= i < s.len() && 0 <= j < s.len() && (#[trigger] s[i]).name@ == (#[trigger] s[j]).name@
            ==> s[i].meta == s[j].meta
}

/// Some field named `n` has meta data other than `m`.
pub open spec fn conflicts(s: Seq<HeaderEntry>, n: Seq<char>, m: HeaderMeta) -> bool {
    exists|i: int| 0 <= i < s.len() && (#[trigger] s[i]).name@ == n && s[i].meta != m
}

/// Inserting a field: refused when a field of that name with other meta
/// data is there, appended otherwise.
pub open spec fn spec_insert(s: Seq<HeaderEntry>, e: HeaderEntry) -> Result<
    Seq<HeaderEntry>,
    HeaderError,
> {
    if conflicts(s, e.name@, e.meta) {
        Err(HeaderError::MetaMismatch)
    } else {
        Ok(s.push(e))
    }
}

/// The entries named `n` of a non-empty sequence, from those of all but its
/// last entry.
pub proof fn lemma_entries_named_step(s: Seq<HeaderEntry>, n: Seq<char>)
    requires
        s.len() > 0,
    ensures
        entries_named(s, n) == (if s.last().name@ == n {
            entries_named(s.drop_last(), n).push(s.last())
        } else {
            entries_named(s.drop_last(), n)
        }),
{
    lemma_filter_step(s, named(n));
}

/// Filtering a non-empty sequence, from filtering all but its last element.
pub proof fn lemma_filter_step<A>(s: Seq<A>, p: spec_fn(A) -> bool)
    requires
        s.len() > 0,
    ensures
        s.filter(p) == (if p(s.last()) {
            s.drop_last().filter(p).push(s.last())
        } else {
            s.drop_last().filter(p)
        }),
{
    reveal_with_fuel(Seq::filter, 1);
}

/// Each element of a filtered sequence is an element of the sequence.
pub proof fn lemma_filter_from<A>(s: Seq<A>, p: spec_fn(A) -> bool)
    ensures
        forall|i: int|
            0 <= i < s.filter(p).len() ==> exists|j: int|
                0 <= j < s.len() && #[trigger] s.filter(p)[i] == s[j],
    decreases s.len(),
{
    if s.len() > 0 {
        lemma_filter_step(s, p);
        lemma_filter_from(s.drop_last(), p);
        let f = s.filter(p);
        let g = s.drop_last().filter(p);
        assert forall|i: int| 0 <= i < f.len() implies exists|j: int|
            0 <= j < s.len() && #[trigger] f[i] == s[j] by {
            if i < g.len() {
                assert(f[i] == g[i]);
                let j = choose|j: int| 0 <= j < s.len() - 1 && #[trigger] g[i] == s.drop_last()[j];
                assert(f[i] == s[j]);
            } else {
                assert(f[i] == s[s.len() - 1]);
            }
        }
    }
}

/// Dropping fields keeps the meta data of same-named fields equal.
pub proof fn lemma_metas_agree_filter(s: Seq<HeaderEntry>, p: spec_fn(HeaderEntry) -> bool)
    requires
        metas_agree(s),
    ensures
        metas_agree(s.filter(p)),
{
    lemma_filter_from(s, p);
    let f = s.filter(p);
    assert forall|i: int, j: int|
        0 <= i < f.len() && 0 <= j < f.len() && (#[trigger] f[i]).name@ == (#[trigger] f[j]).name@
            implies f[i].meta == f[j].meta by {
        let a = choose|a: int| 0 <= a < s.len() && #[trigger] f[i] == s[a];
        let b = choose|b: int| 0 <= b < s.len() && #[trigger] f[j] == s[b];
        assert(s[a].name@ == s[b].name@);
    }
}

/// Some entry is named `n` exactly when the entries named `n` are not none.
pub proof fn lemma_has_entry_named(s: Seq<HeaderEntry>, n: Seq<char>)
    ensures
        has_entry_named(s, n) <==> entries_named(s, n).len() > 0,
    decreases s.len(),
{
    if s.len() > 0 {
        lemma_entries_named_step(s, n);
        lemma_has_entry_named(s.drop_last(), n);
        if has_entry_named(s, n) && s.last().name@ != n {
            let i = choose|i: int| 0 <= i < s.len() && (#[trigger] s[i]).name@ == n;
            assert(s.drop_last()[i] == s[i]);
        }
        if has_entry_named(s.drop_last(), n) {
            let i = choose|i: int| 0 <= i < s.len() - 1 && (#[trigger] s.drop_last()[i]).name@ == n;
            assert(s[i] == s.drop_last()[i]);
        }
        if s.last().name@ == n {
            assert(s[s.len() - 1].name@ == n);
        }
    }
}

/// A map of header fields which keeps their order of insertion; fields with
/// the same name share their meta data.
pub struct HeaderMap {
    entries: Vec<HeaderEntry>,
}

impl View for HeaderMap {
    type V = Seq<HeaderEntry>;

    closed spec fn view(&self) -> Seq<HeaderEntry> {
        self.entries@
    }
}

impl HeaderMap {
    #[verifier::type_invariant]
    spec fn inv(self) -> bool {
        metas_agree(self.entries@)
    }

    /// An empty map.
    pub fn new() -> (r: HeaderMap)
        ensures
            r@ == Seq::<HeaderEntry>::empty(),
    {
        HeaderMap { entries: Vec::new() }
    }

    /// Fields with the same name share their meta data.
    pub fn metas_agree(&self)
        ensures
            metas_agree(self@),
    {
        proof {
            use_type_invariant(self);
        }
    }

    /// The number of header fields.
    pub fn len(&self) -> (r: usize)
        ensures
            r == self@.len(),
    {
        self.entries.len()
    }

    /// Whether the map holds a field named `name`.
    pub fn contains(&self, name: &HeaderName) -> (r: bool)
        ensures
            r == has_entry_named(self@, name@),
    {
        let mut i: usize = 0;
        while i < self.entries.len()
            invariant
                i <= self.entries.len(),
                forall|j: int| 0 <= j < i ==> (#[trigger] self.entries@[j]).name@ != name@,
            decreases self.entries.len() - i,
        {
            if str_eq(self.entries[i].name.as_str(), name.as_str()) {
                assert(self@[i as int].name@ == name@);
                return true;
            }
            i = i + 1;
        }
        false
    }

    /// The number of fields named `name`.
    pub fn count(&self, name: &HeaderName) -> (r: usize)
        ensures
            r == entries_named(self@, name@).len(),
    {
        let mut n: usize = 0;
        let mut i: usize = 0;
        while i < self.entries.len()
            invariant
                i <= self.entries.len(),
                n == entries_named(self.entries@.take(i as int), name@).len(),
                n <= i,
            decreases self.entries.len() - i,
        {
            proof {
                assert(self.entries@.take(i + 1).drop_last() =~= self.entries@.take(i as int));
                lemma_entries_named_step(self.entries@.take(i + 1), name@);
            }
            if str_eq(self.entries[i].name.as_str(), name.as_str()) {
                n = n + 1;
            }
            i = i + 1;
        }
        proof {
            assert(self.entries@.take(i as int) =~= self.entries@);
        }
        n
    }

    /// The meta data of the first field named `name`, if there is one.
    fn meta_of(&self, name: &HeaderName) -> (r: Option<HeaderMeta>)
        ensures
            r is None ==> !has_entry_named(self@, name@),
            r matches Some(m) ==> exists|i: int|
                0 <= i < self@.len() && (#[trigger] self@[i]).name@ == name@ && self@[i].meta == m,
    {
        let mut i: usize = 0;
        while i < self.entries.len()
            invariant
                i <= self.entries.len(),
                forall|j: int| 0 <= j < i ==> (#[trigger] self.entries@[j]).name@ != name@,
            decreases self.entries.len() - i,
        {
            if str_eq(self.entries[i].name.as_str(), name.as_str()) {
                assert(self@[i as int].name@ == name@);
                return Some(self.entries[i].meta);
            }
            i = i + 1;
        }
        None
    }

    /// Appends `entry` unless a field of its name has other meta data, in
    /// which case the map stays as it was and `entry` is handed back.
    fn try_insert(&mut self, entry: HeaderEntry) -> (r: Result<usize, HeaderEntry>)
        ensures
            !conflicts(old(self)@, entry.name@, entry.meta) ==> final(self)@ == old(self)@.push(entry)
                && r == Ok::<usize, HeaderEntry>(
                (entries_named(old(self)@, entry.name@).len() + 1) as usize,
            ),
            conflicts(old(self)@, entry.name@, entry.meta) ==> final(self)@ == old(self)@ && r
                == Err::<usize, HeaderEntry>(entry),
    {
        proof {
            use_type_invariant(&*self);
        }
        match self.meta_of(&entry.name) {
            Some(m) => {
                if m != entry.meta {
                    return Err(entry);
                }
            },
            None => {},
        }
        let name = entry.name;
        let ghost s = self@;
        let ghost n = entry.name@;
        proof {
            assert forall|i: int| 0 <= i < s.len() && (#[trigger] s[i]).name@ == n implies s[i].meta
                == entry.meta by {}
            assert forall|i: int, j: int|
                0 <= i < s.len() + 1 && 0 <= j < s.len() + 1 && (#[trigger] s.push(entry)[i]).name@
                    == (#[trigger] s.push(entry)[j]).name@ implies s.push(entry)[i].meta == s.push(
                entry,
            )[j].meta by {
                if i < s.len() && j < s.len() {
                    assert(s.push(entry)[i] == s[i] && s.push(entry)[j] == s[j]);
                } else if i < s.len() {
                    assert(s.push(entry)[i] == s[i]);
                } else if j < s.len() {
                    assert(s.push(entry)[j] == s[j]);
                }
            }
        }
        let mut entries = Vec::new();
        std::mem::swap(&mut entries, &mut self.entries);
        entries.push(entry);
        self.entries = entries;
        let c = self.count(&name);
        proof {
            assert(self@ == s.push(entry));
            assert(self@.drop_last() =~= s);
            lemma_entries_named_step(self@, n);
        }
        Ok(c)
    }

    /// Inserts a header field; fails with `MetaMismatch`, leaving the map
    /// as it was, when a field with that name but other meta data is in the
    /// map. Returns the number of fields with that name after inserting.
    pub fn insert_entry(&mut self, entry: HeaderEntry) -> (r: Result<usize, HeaderError>)
        ensures
            spec_insert(old(self)@, entry) matches Ok(s) ==> final(self)@ == s && r == Ok::<
                usize,
                HeaderError,
            >((entries_named(old(self)@, entry.name@).len() + 1) as usize),
            spec_insert(old(self)@, entry) matches Err(e) ==> final(self)@ == old(self)@ && r
                == Err::<usize, HeaderError>(e),
    {
        match self.try_insert(entry) {
            Ok(n) => Ok(n),
            Err(_) => Err(HeaderError::MetaMismatch),
        }
    }

    /// Inserts a field of the header type `H` with the given body, `H`
    /// given as a value (see `_insert`).
    pub fn insert<H: Header>(&mut self, _hint: H, body: HeaderBody) -> (r: Result<
        usize,
        HeaderError,
    >)
        requires
            body.spec_kind() == H::spec_component(),
        ensures
            conflicts(old(self)@, H::spec_name(), H::spec_meta()) ==> final(self)@ == old(self)@ && r
                == Err::<usize, HeaderError>(HeaderError::MetaMismatch),
            !conflicts(old(self)@, H::spec_name(), H::spec_meta()) ==> {
                &&& final(self)@.len() == old(self)@.len() + 1
                &&& final(self)@.drop_last() == old(self)@
                &&& final(self)@.last().name@ == H::spec_name()
                &&& final(self)@.last().body == body
                &&& final(self)@.last().meta == H::spec_meta()
                &&& r == Ok::<usize, HeaderError>(
                    (entries_named(old(self)@, H::spec_name()).len() + 1) as usize,
                )
            },
    {
        self._insert::<H>(body)
    }

    /// Inserts a field of the header type `H` with the given body (see
    /// `insert_entry`).
    pub fn _insert<H: Header>(&mut self, body: HeaderBody) -> (r: Result<
        usize,
        HeaderError,
    >)
        requires
            body.spec_kind() == H::spec_component(),
        ensures
            conflicts(old(self)@, H::spec_name(), H::spec_meta()) ==> final(self)@ == old(self)@ && r
                == Err::<usize, HeaderError>(HeaderError::MetaMismatch),
            !conflicts(old(self)@, H::spec_name(), H::spec_meta()) ==> {
                &&& final(self)@.len() == old(self)@.len() + 1
                &&& final(self)@.drop_last() == old(self)@
                &&& final(self)@.last().name@ == H::spec_name()
                &&& final(self)@.last().body == body
                &&& final(self)@.last().meta == H::spec_meta()
                &&& r == Ok::<usize, HeaderError>(
                    (entries_named(old(self)@, H::spec_name()).len() + 1) as usize,
                )
            },
    {
        let entry = HeaderEntry { name: H::name(), body, meta: H::meta() };
        let r = self.insert_entry(entry);
        proof {
            if !conflicts(old(self)@, H::spec_name(), H::spec_meta()) {
                assert(final(self)@.drop_last() =~= old(self)@);
            }
        }
        r
    }

    /// The bodies of the fields named `name` in their order, or `None` if
    /// there is no such field.
    pub fn get_untyped(&self, name: &HeaderName) -> (r: Option<Vec<&HeaderBody>>)
        ensures
            entries_named(self@, name@).len() == 0 ==> r is None,
            entries_named(self@, name@).len() > 0 ==> (r matches Some(v) && v@.len()
                == entries_named(self@, name@).len() && forall|k: int|
                0 <= k < v@.len() ==> *v@[k] == (#[trigger] entries_named(self@, name@)[k]).body),
    {
        let mut v: Vec<&HeaderBody> = Vec::new();
        let mut i: usize = 0;
        while i < self.entries.len()
            invariant
                i <= self.entries.len(),
                v@.len() == entries_named(self.entries@.take(i as int), name@).len(),
                forall|k: int|
                    0 <= k < v@.len() ==> *v@[k] == (#[trigger] entries_named(
                        self.entries@.take(i as int),
                        name@,
                    )[k]).body,
            decreases self.entries.len() - i,
        {
            proof {
                assert(self.entries@.take(i + 1).drop_last() =~= self.entries@.take(i as int));
                lemma_entries_named_step(self.entries@.take(i + 1), name@);
            }
            if str_eq(self.entries[i].name.as_str(), name.as_str()) {
                v.push(&self.entries[i].body);
            }
            i = i + 1;
        }
        proof {
            assert(self.entries@.take(i as int) =~= self.entries@);
        }
        if v.len() == 0 {
            None
        } else {
            Some(v)
        }
    }

    /// The bodies of the fields named after the header type `H`, in their
    /// order, each checked to be of `H`'s component type (`TypeMismatch`
    /// where it is not), or `None` if there is no such field.
    pub fn get<H: Header>(&self, _hint: H) -> (r: Option<Vec<Result<&HeaderBody, HeaderError>>>)
        ensures
            entries_named(self@, H::spec_name()).len() == 0 ==> r is None,
            entries_named(self@, H::spec_name()).len() > 0 ==> (r matches Some(v) && v@.len()
                == entries_named(self@, H::spec_name()).len() && forall|k: int|
                0 <= k < v@.len() ==> typed_body::<H>(
                    #[trigger] entries_named(self@, H::spec_name())[k],
                    v@[k],
                )),
    {
        self._get::<H>()
    }

    /// Like `get`, with the header type `H` given as a type argument only.
    pub fn _get<H: Header>(&self) -> (r: Option<Vec<Result<&HeaderBody, HeaderError>>>)
        ensures
            entries_named(self@, H::spec_name()).len() == 0 ==> r is None,
            entries_named(self@, H::spec_name()).len() > 0 ==> (r matches Some(v) && v@.len()
                == entries_named(self@, H::spec_name()).len() && forall|k: int|
                0 <= k < v@.len() ==> typed_body::<H>(
                    #[trigger] entries_named(self@, H::spec_name())[k],
                    v@[k],
                )),
    {
        let name = H::name();
        let component = H::component();
        let mut v: Vec<Result<&HeaderBody, HeaderError>> = Vec::new();
        let mut i: usize = 0;
        while i < self.entries.len()
            invariant
                i <= self.entries.len(),
                name@ == H::spec_name(),
                component == H::spec_component(),
                v@.len() == entries_named(self.entries@.take(i as int), name@).len(),
                forall|k: int|
                    0 <= k < v@.len() ==> typed_body::<H>(
                        #[trigger] entries_named(self.entries@.take(i as int), name@)[k],
                        v@[k],
                    ),
            decreases self.entries.len() - i,
        {
            proof {
                assert(self.entries@.take(i + 1).drop_last() =~= self.entries@.take(i as int));
                lemma_entries_named_step(self.entries@.take(i + 1), name@);
            }
            if str_eq(self.entries[i].name.as_str(), name.as_str()) {
                let body = &self.entries[i].body;
                if body.kind() == component {
                    v.push(Ok(body));
                } else {
                    v.push(Err(HeaderError::TypeMismatch));
                }
            }
            i = i + 1;
        }
        proof {
            assert(self.entries@.take(i as int) =~= self.entries@);
        }
        if v.len() == 0 {
            None
        } else {
            Some(v)
        }
    }

    /// The body of the first field named after the singular header type
    /// `H`, or `None` if there is no such field. It is `MetaMismatch` if
    /// the fields of that name have other meta data than `H`, and
    /// `TypeMismatch` if the body is not of `H`'s component type.
    pub fn get_single<H: Header + SingularHeaderMarker>(&self, _hint: H) -> (r: Option<
        Result<&HeaderBody, HeaderError>,
    >)
        ensures
            entries_named(self@, H::spec_name()).len() == 0 ==> r is None,
            entries_named(self@, H::spec_name()).len() > 0 ==> (r matches Some(x) && {
                let first = entries_named(self@, H::spec_name())[0];
                if first.meta != H::spec_meta() {
                    x == Err::<&HeaderBody, HeaderError>(HeaderError::MetaMismatch)
                } else {
                    typed_body::<H>(first, x)
                }
            }),
    {
        self._get_single::<H>()
    }

    /// Like `get_single`, with the header type `H` given as a type argument
    /// only.
    pub fn _get_single<H: Header + SingularHeaderMarker>(&self) -> (r: Option<
        Result<&HeaderBody, HeaderError>,
    >)
        ensures
            entries_named(self@, H::spec_name()).len() == 0 ==> r is None,
            entries_named(self@, H::spec_name()).len() > 0 ==> (r matches Some(x) && {
                let first = entries_named(self@, H::spec_name())[0];
                if first.meta != H::spec_meta() {
                    x == Err::<&HeaderBody, HeaderError>(HeaderError::MetaMismatch)
                } else {
                    typed_body::<H>(first, x)
                }
            }),
    {
        let name = H::name();
        match self.get_untyped(&name) {
            None => None,
            Some(_) => {
                let i = self.first_named(&name);
                proof {
                    lemma_first_named(self@, name@, i as int);
                }
                let entry = &self.entries[i];
                if entry.meta != H::meta() {
                    Some(Err(HeaderError::MetaMismatch))
                } else if entry.body.kind() == H::component() {
                    Some(Ok(&entry.body))
                } else {
                    Some(Err(HeaderError::TypeMismatch))
                }
            },
        }
    }

    /// The index of the first field named `name`, which is there.
    fn first_named(&self, name: &HeaderName) -> (r: usize)
        requires
            entries_named(self@, name@).len() > 0,
        ensures
            r < self@.len(),
            self@[r as int].name@ == name@,
            forall|j: int| 0 <= j < r ==> (#[trigger] self@[j]).name@ != name@,
    {
        proof {
            lemma_has_entry_named(self@, name@);
        }
        let mut i: usize = 0;
        while i < self.entries.len()
            invariant
                i <= self.entries.len(),
                has_entry_named(self.entries@, name@),
                forall|j: int| 0 <= j < i ==> (#[trigger] self.entries@[j]).name@ != name@,
            decreases self.entries.len() - i,
        {
            if str_eq(self.entries[i].name.as_str(), name.as_str()) {
                return i;
            }
            i = i + 1;
        }
        proof {
            let j = choose|j: int| 0 <= j < self@.len() && (#[trigger] self@[j]).name@ == name@;
            assert(self.entries@[j].name@ != name@);
        }
        0
    }

    /// Removes all fields named `name`; returns whether there was one.
    pub fn remove_by_name(&mut self, name: &HeaderName) -> (r: bool)
        ensures
            r == has_entry_named(old(self)@, name@),
            final(self)@ == old(self)@.filter(unnamed(name@)),
    {
        proof {
            use_type_invariant(&*self);
        }
        let mut v = Vec::new();
        std::mem::swap(&mut v, &mut self.entries);
        let ghost orig = v@;
        let ghost keep = unnamed(name@);
        let ghost mut k: int = 0;
        let mut removed = false;
        let mut i: usize = 0;
        while i < v.len()
            invariant
                0 <= k <= orig.len(),
                i <= v.len(),
                v@.take(i as int) == orig.take(k).filter(keep),
                v@.skip(i as int) == orig.skip(k),
                removed == has_entry_named(orig.take(k), name@),
                keep == unnamed(name@),
            decreases v.len() - i,
        {
            let ghost before = v@;
            proof {
                assert(before.skip(i as int).len() == before.len() - i);
                assert(orig.skip(k).len() == orig.len() - k);
                assert(orig.take(k + 1).drop_last() =~= orig.take(k));
                assert(orig[k] == before.skip(i as int)[0]);
                lemma_filter_step(orig.take(k + 1), keep);
            }
            if str_eq(v[i].name.as_str(), name.as_str()) {
                v.remove(i);
                proof {
                    assert(v@.take(i as int) =~= before.take(i as int));
                    assert forall|j: int| 0 <= j < v@.len() - i implies #[trigger] v@.skip(
                        i as int,
                    )[j] == orig.skip(k + 1)[j] by {
                        assert(v@[i + j] == before[i + j + 1]);
                        assert(before.skip(i as int)[j + 1] == orig.skip(k)[j + 1]);
                    }
                    assert(v@.skip(i as int) =~= orig.skip(k + 1));
                    assert(orig.take(k + 1)[k] == orig[k]);
                }
                removed = true;
            } else {
                proof {
                    assert(v@.take(i + 1) =~= before.take(i as int).push(orig[k]));
                    assert forall|j: int| 0 <= j < v@.len() - i - 1 implies #[trigger] v@.skip(
                        i + 1,
                    )[j] == orig.skip(k + 1)[j] by {
                        assert(before.skip(i as int)[j + 1] == orig.skip(k)[j + 1]);
                    }
                    assert(v@.skip(i + 1) =~= orig.skip(k + 1));
                    if has_entry_named(orig.take(k + 1), name@) {
                        let j = choose|j: int|
                            0 <= j < k + 1 && (#[trigger] orig.take(k + 1)[j]).name@ == name@;
                        assert(orig.take(k)[j] == orig.take(k + 1)[j]);
                    }
                }
                i = i + 1;
            }
            proof {
                k = k + 1;
                if has_entry_named(orig.take(k - 1), name@) {
                    let j = choose|j: int|
                        0 <= j < k - 1 && (#[trigger] orig.take(k - 1)[j]).name@ == name@;
                    assert(orig.take(k)[j] == orig.take(k - 1)[j]);
                }
            }
        }
        proof {
            assert(v@ =~= v@.take(i as int));
            assert(orig.take(k) =~= orig);
            lemma_metas_agree_filter(orig, keep);
        }
        self.entries = v;
        removed
    }

    /// The fields in their order.
    pub fn iter(&self) -> (r: &Vec<HeaderEntry>)
        ensures
            r@ == self@,
    {
        &self.entries
    }

    /// The fields in their order, consuming the map.
    pub fn into_iter_with_meta(self) -> (r: Vec<HeaderEntry>)
        ensures
            r@ == self@,
    {
        self.entries
    }

    /// Inserts the fields of `other` one by one, in their order. Those
    /// refused for other meta data than same-named fields already there are
    /// handed back, in their order, as the error.
    pub fn extend(&mut self, other: HeaderMap) -> (r: Result<(), Vec<HeaderEntry>>)
        ensures
            final(self)@ == spec_extend(old(self)@, other@).0,
            spec_extend(old(self)@, other@).1.len() == 0 ==> r is Ok,
            spec_extend(old(self)@, other@).1.len() > 0 ==> (r matches Err(v) && v@ == spec_extend(
                old(self)@,
                other@,
            ).1),
    {
        let ghost s0 = self@;
        let ghost es = other@;
        let mut rest = other.into_iter_with_meta();
        let mut rejected: Vec<HeaderEntry> = Vec::new();
        let ghost mut k: int = 0;
        while rest.len() > 0
            invariant
                0 <= k <= es.len(),
                rest@ == es.skip(k),
                (self@, rejected@) == spec_extend(s0, es.take(k)),
            decreases rest.len(),
        {
            proof {
                assert(es.skip(k).len() == es.len() - k);
                assert(es.take(k + 1).drop_last() =~= es.take(k));
                assert(es.take(k + 1).last() == es[k]);
                assert(rest@[0] == es[k]);
            }
            let e = rest.remove(0);
            match self.try_insert(e) {
                Ok(_) => {},
                Err(e) => {
                    rejected.push(e);
                },
            }
            proof {
                assert(rest@ =~= es.skip(k + 1));
                k = k + 1;
            }
        }
        proof {
            assert(es.skip(k).len() == es.len() - k);
            assert(es.take(k) =~= es);
        }
        if rejected.len() == 0 {
            Ok(())
        } else {
            Err(rejected)
        }
    }
}

/// Extending `s` by `es` field by field: the fields then in the map, and
/// the fields refused.
pub open spec fn spec_extend(s: Seq<HeaderEntry>, es: Seq<HeaderEntry>) -> (
    Seq<HeaderEntry>,
    Seq<HeaderEntry>,
)
    decreases es.len(),
{
    if es.len() == 0 {
        (s, Seq::empty())
    } else {
        let (t, refused) = spec_extend(s, es.drop_last());
        let e = es.last();
        if conflicts(t, e.name@, e.meta) {
            (t, refused.push(e))
        } else {
            (t.push(e), refused)
        }
    }
}

/// Whether the entry is not named `n`.
pub open spec fn unnamed(n: Seq<char>) -> spec_fn(HeaderEntry) -> bool {
    |e: HeaderEntry| e.name@ != n
}

/// `x` is what a typed lookup of header `H` gives for the field `e`: its
/// body where it is of `H`'s component type, `TypeMismatch` otherwise.
pub open spec fn typed_body<H: Header>(e: HeaderEntry, x: Result<&HeaderBody, HeaderError>) -> bool {
    if e.body.spec_kind() == H::spec_component() {
        x matches Ok(b) && *b == e.body
    } else {
        x == Err::<&HeaderBody, HeaderError>(HeaderError::TypeMismatch)
    }
}

/// The first field named `n` is the first of the entries named `n`.
pub proof fn lemma_first_named(s: Seq<HeaderEntry>, n: Seq<char>, i: int)
    requires
        0 <= i < s.len(),
        s[i].name@ == n,
        forall|j: int| 0 <= j < i ==> (#[trigger] s[j]).name@ != n,
    ensures
        entries_named(s, n).len() > 0,
        entries_named(s, n)[0] == s[i],
    decreases s.len(),
{
    lemma_entries_named_step(s, n);
    if i < s.len() - 1 {
        lemma_first_named(s.drop_last(), n, i);
        assert(entries_named(s.drop_last(), n)[0] == entries_named(s, n)[0]);
    } else {
        assert forall|j: int| 0 <= j < s.len() - 1 implies (#[trigger] s.drop_last()[j]).name@ != n by {
            assert(s.drop_last()[j] == s[j]);
        }
        lemma_has_entry_named(s.drop_last(), n);
    }
}

/// Reading back a write: after a field was inserted, the fields with its
/// name are those before followed by it, and the fields of every other
/// name are as before.
pub proof fn lemma_insert_then_get(s: Seq<HeaderEntry>, e: HeaderEntry, n: Seq<char>)
    requires
        spec_insert(s, e) is Ok,
    ensures
        spec_insert(s, e) matches Ok(t) && entries_named(t, n) == (if n == e.name@ {
            entries_named(s, n).push(e)
        } else {
            entries_named(s, n)
        }),
{
    let t = s.push(e);
    assert(t.drop_last() =~= s);
    lemma_entries_named_step(t, n);
}

/// Inserting keeps the meta data of same-named fields equal.
pub proof fn lemma_insert_keeps_metas(s: Seq<HeaderEntry>, e: HeaderEntry)
    requires
        metas_agree(s),
        spec_insert(s, e) is Ok,
    ensures
        spec_insert(s, e) matches Ok(t) && metas_agree(t),
{
    let t = s.push(e);
    assert forall|i: int, j: int|
        0 <= i < t.len() && 0 <= j < t.len() && (#[trigger] t[i]).name@ == (#[trigger] t[j]).name@
            implies t[i].meta == t[j].meta by {
        if i < s.len() {
            assert(t[i] == s[i]);
        }
        if j < s.len() {
            assert(t[j] == s[j]);
        }
    }
}

/// After removing the fields named `n` none is left, and the fields of
/// every other name are as before.
pub proof fn lemma_remove_by_name(s: Seq<HeaderEntry>, n: Seq<char>, m: Seq<char>)
    ensures
        !has_entry_named(s.filter(unnamed(n)), n),
        m != n ==> entries_named(s.filter(unnamed(n)), m) == entries_named(s, m),
    decreases s.len(),
{
    let t = s.filter(unnamed(n));
    lemma_filter_step_unnamed(s, n);
    if s.len() > 0 {
        lemma_remove_by_name(s.drop_last(), n, m);
        lemma_entries_named_step(s, m);
        if s.last().name@ != n {
            lemma_entries_named_step(t, m);
            assert(t.drop_last() =~= s.drop_last().filter(unnamed(n)));
        }
    }
    if has_entry_named(t, n) {
        lemma_filter_pred_all(s, unnamed(n));
        let i = choose|i: int| 0 <= i < t.len() && (#[trigger] t[i]).name@ == n;
        assert(unnamed(n)(t[i]));
    }
}

/// Filtering by `unnamed(n)`, one step.
proof fn lemma_filter_step_unnamed(s: Seq<HeaderEntry>, n: Seq<char>)
    ensures
        s.len() > 0 ==> s.filter(unnamed(n)) == (if s.last().name@ != n {
            s.drop_last().filter(unnamed(n)).push(s.last())
        } else {
            s.drop_last().filter(unnamed(n))
        }),
{
    if s.len() > 0 {
        lemma_filter_step(s, unnamed(n));
    }
}

/// Every element of a filtered sequence meets the filter.
proof fn lemma_filter_pred_all<A>(s: Seq<A>, p: spec_fn(A) -> bool)
    ensures
        forall|i: int| 0 <= i < s.filter(p).len() ==> p(#[trigger] s.filter(p)[i]),
{
    assert forall|i: int| 0 <= i < s.filter(p).len() implies p(#[trigger] s.filter(p)[i]) by {
        s.lemma_filter_pred(p, i);
    }
}

/// Extending keeps the order: where no field was refused, the fields are
/// those before followed by those of the other map, in their order.
pub proof fn lemma_extend_keeps_order(s: Seq<HeaderEntry>, es: Seq<HeaderEntry>)
    requires
        spec_extend(s, es).1.len() == 0,
    ensures
        spec_extend(s, es).0 == s + es,
    decreases es.len(),
{
    if es.len() > 0 {
        let (t, refused) = spec_extend(s, es.drop_last());
        if refused.len() > 0 {
            let e = es.last();
            if conflicts(t, e.name@, e.meta) {
                assert(refused.push(e).len() > 0);
            }
        }
        lemma_extend_keeps_order(s, es.drop_last());
        assert(s + es.drop_last() + seq![es.last()] =~= s + es);
    }
}

/// No field is refused when extending by fields whose meta data agrees
/// with that of all same-named fields.
pub proof fn lemma_extend_compatible(s: Seq<HeaderEntry>, es: Seq<HeaderEntry>)
    requires
        metas_agree(s + es),
    ensures
        spec_extend(s, es).1.len() == 0,
        spec_extend(s, es).0 == s + es,
    decreases es.len(),
{
    if es.len() > 0 {
        let u = s + es.drop_last();
        assert forall|i: int, j: int|
            0 <= i < u.len() && 0 <= j < u.len() && (#[trigger] u[i]).name@ == (#[trigger] u[j]).name@
                implies u[i].meta == u[j].meta by {
            assert(u[i] == (s + es)[i] && u[j] == (s + es)[j]);
        }
        lemma_extend_compatible(s, es.drop_last());
        let e = es.last();
        if conflicts(u, e.name@, e.meta) {
            let i = choose|i: int| 0 <= i < u.len() && (#[trigger] u[i]).name@ == e.name@ && u[i].meta != e.meta;
            assert(u[i] == (s + es)[i]);
            assert(e == (s + es)[s.len() + es.len() - 1]);
        }
        assert(u.push(e) =~= s + es);
    }
}

} // verus!
