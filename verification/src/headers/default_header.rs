//! The header types of RFC 5322, RFC 2045 and RFC 2183, and the contextual
//! validators of the header map.
use vstd::prelude::*;

use crate::error::HeaderError;
use crate::headers::map::{
    ComponentKind, ContextualValidator, Header, HeaderEntry, HeaderMap, HeaderMeta, has_entry_named,
    lemma_filter_step,
};
use crate::headers::{HeaderName, SingularHeaderMarker};
use crate::utils::{str_chars, str_eq};

verus! {

/// `From`: the authors of the message (RFC 5322).
pub struct FromHeader;

impl Header for FromHeader {
    open spec fn spec_name() -> Seq<char> {
        "From"@
    }

    open spec fn spec_meta() -> HeaderMeta {
        HeaderMeta { max_count_eq_1: true, contextual_validator: Some(ContextualValidator::FromSender) }
    }

    open spec fn spec_component() -> ComponentKind {
        ComponentKind::MailboxList
    }

    fn name() -> (r: HeaderName) {
        proof {
            reveal_strlit("From");
        }
        HeaderName::from_ascii_unchecked("From")
    }

    fn meta() -> (r: HeaderMeta) {
        HeaderMeta { max_count_eq_1: true, contextual_validator: Some(ContextualValidator::FromSender) }
    }

    fn component() -> (r: ComponentKind) {
        ComponentKind::MailboxList
    }
}

impl SingularHeaderMarker for FromHeader {}

/// `Sender`: the mailbox of the agent which sent the message (RFC 5322).
pub struct Sender;

impl Header for Sender {
    open spec fn spec_name() -> Seq<char> {
        "Sender"@
    }

    open spec fn spec_meta() -> HeaderMeta {
        HeaderMeta { max_count_eq_1: true, contextual_validator: None }
    }

    open spec fn spec_component() -> ComponentKind {
        ComponentKind::Mailbox
    }

    fn name() -> (r: HeaderName) {
        proof {
            reveal_strlit("Sender");
        }
        HeaderName::from_ascii_unchecked("Sender")
    }

    fn meta() -> (r: HeaderMeta) {
        HeaderMeta { max_count_eq_1: true, contextual_validator: None }
    }

    fn component() -> (r: ComponentKind) {
        ComponentKind::Mailbox
    }
}

impl SingularHeaderMarker for Sender {}

/// `Reply-To`: where replies should be sent to (RFC 5322).
pub struct ReplyTo;

impl Header for ReplyTo {
    open spec fn spec_name() -> Seq<char> {
        "Reply-To"@
    }

    open spec fn spec_meta() -> HeaderMeta {
        HeaderMeta { max_count_eq_1: true, contextual_validator: None }
    }

    open spec fn spec_component() -> ComponentKind {
        ComponentKind::MailboxList
    }

    fn name() -> (r: HeaderName) {
        proof {
            reveal_strlit("Reply-To");
        }
        HeaderName::from_ascii_unchecked("Reply-To")
    }

    fn meta() -> (r: HeaderMeta) {
        HeaderMeta { max_count_eq_1: true, contextual_validator: None }
    }

    fn component() -> (r: ComponentKind) {
        ComponentKind::MailboxList
    }
}

impl SingularHeaderMarker for ReplyTo {}

/// `To`: the primary recipients (RFC 5322).
pub struct To;

impl Header for To {
    open spec fn spec_name() -> Seq<char> {
        "To"@
    }

    open spec fn spec_meta() -> HeaderMeta {
        HeaderMeta { max_count_eq_1: true, contextual_validator: None }
    }

    open spec fn spec_component() -> ComponentKind {
        ComponentKind::MailboxList
    }

    fn name() -> (r: HeaderName) {
        proof {
            reveal_strlit("To");
        }
        HeaderName::from_ascii_unchecked("To")
    }

    fn meta() -> (r: HeaderMeta) {
        HeaderMeta { max_count_eq_1: true, contextual_validator: None }
    }

    fn component() -> (r: ComponentKind) {
        ComponentKind::MailboxList
    }
}

impl SingularHeaderMarker for To {}

/// `Cc`: further recipients (RFC 5322).
pub struct Cc;

impl Header for Cc {
    open spec fn spec_name() -> Seq<char> {
        "Cc"@
    }

    open spec fn spec_meta() -> HeaderMeta {
        HeaderMeta { max_count_eq_1: true, contextual_validator: None }
    }

    open spec fn spec_component() -> ComponentKind {
        ComponentKind::MailboxList
    }

    fn name() -> (r: HeaderName) {
        proof {
            reveal_strlit("Cc");
        }
        HeaderName::from_ascii_unchecked("Cc")
    }

    fn meta() -> (r: HeaderMeta) {
        HeaderMeta { max_count_eq_1: true, contextual_validator: None }
    }

    fn component() -> (r: ComponentKind) {
        ComponentKind::MailboxList
    }
}

impl SingularHeaderMarker for Cc {}

/// `Bcc`: recipients not shown to the others (RFC 5322).
pub struct Bcc;

impl Header for Bcc {
    open spec fn spec_name() -> Seq<char> {
        "Bcc"@
    }

    open spec fn spec_meta() -> HeaderMeta {
        HeaderMeta { max_count_eq_1: true, contextual_validator: None }
    }

    open spec fn spec_component() -> ComponentKind {
        ComponentKind::MailboxList
    }

    fn name() -> (r: HeaderName) {
        proof {
            reveal_strlit("Bcc");
        }
        HeaderName::from_ascii_unchecked("Bcc")
    }

    fn meta() -> (r: HeaderMeta) {
        HeaderMeta { max_count_eq_1: true, contextual_validator: None }
    }

    fn component() -> (r: ComponentKind) {
        ComponentKind::MailboxList
    }
}

impl SingularHeaderMarker for Bcc {}

/// `Message-Id`: the unique identifier of the message (RFC 5322).
pub struct MessageId;

impl Header for MessageId {
    open spec fn spec_name() -> Seq<char> {
        "Message-Id"@
    }

    open spec fn spec_meta() -> HeaderMeta {
        HeaderMeta { max_count_eq_1: true, contextual_validator: None }
    }

    open spec fn spec_component() -> ComponentKind {
        ComponentKind::MessageId
    }

    fn name() -> (r: HeaderName) {
        proof {
            reveal_strlit("Message-Id");
        }
        HeaderName::from_ascii_unchecked("Message-Id")
    }

    fn meta() -> (r: HeaderMeta) {
        HeaderMeta { max_count_eq_1: true, contextual_validator: None }
    }

    fn component() -> (r: ComponentKind) {
        ComponentKind::MessageId
    }
}

impl SingularHeaderMarker for MessageId {}

/// `In-Reply-To`: the messages this one replies to (RFC 5322).
pub struct InReplyTo;

impl Header for InReplyTo {
    open spec fn spec_name() -> Seq<char> {
        "In-Reply-To"@
    }

    open spec fn spec_meta() -> HeaderMeta {
        HeaderMeta { max_count_eq_1: true, contextual_validator: None }
    }

    open spec fn spec_component() -> ComponentKind {
        ComponentKind::MessageIdList
    }

    fn name() -> (r: HeaderName) {
        proof {
            reveal_strlit("In-Reply-To");
        }
        HeaderName::from_ascii_unchecked("In-Reply-To")
    }

    fn meta() -> (r: HeaderMeta) {
        HeaderMeta { max_count_eq_1: true, contextual_validator: None }
    }

    fn component() -> (r: ComponentKind) {
        ComponentKind::MessageIdList
    }
}

impl SingularHeaderMarker for InReplyTo {}

/// `References`: the thread this message belongs to (RFC 5322).
pub struct References;

impl Header for References {
    open spec fn spec_name() -> Seq<char> {
        "References"@
    }

    open spec fn spec_meta() -> HeaderMeta {
        HeaderMeta { max_count_eq_1: true, contextual_validator: None }
    }

    open spec fn spec_component() -> ComponentKind {
        ComponentKind::MessageIdList
    }

    fn name() -> (r: HeaderName) {
        proof {
            reveal_strlit("References");
        }
        HeaderName::from_ascii_unchecked("References")
    }

    fn meta() -> (r: HeaderMeta) {
        HeaderMeta { max_count_eq_1: true, contextual_validator: None }
    }

    fn component() -> (r: ComponentKind) {
        ComponentKind::MessageIdList
    }
}

impl SingularHeaderMarker for References {}

/// `Subject`: the topic of the message (RFC 5322).
pub struct Subject;

impl Header for Subject {
    open spec fn spec_name() -> Seq<char> {
        "Subject"@
    }

    open spec fn spec_meta() -> HeaderMeta {
        HeaderMeta { max_count_eq_1: true, contextual_validator: None }
    }

    open spec fn spec_component() -> ComponentKind {
        ComponentKind::Unstructured
    }

    fn name() -> (r: HeaderName) {
        proof {
            reveal_strlit("Subject");
        }
        HeaderName::from_ascii_unchecked("Subject")
    }

    fn meta() -> (r: HeaderMeta) {
        HeaderMeta { max_count_eq_1: true, contextual_validator: None }
    }

    fn component() -> (r: ComponentKind) {
        ComponentKind::Unstructured
    }
}

impl SingularHeaderMarker for Subject {}

/// `Comments`: comments on the message (RFC 5322).
pub struct Comments;

impl Header for Comments {
    open spec fn spec_name() -> Seq<char> {
        "Comments"@
    }

    open spec fn spec_meta() -> HeaderMeta {
        HeaderMeta { max_count_eq_1: false, contextual_validator: None }
    }

    open spec fn spec_component() -> ComponentKind {
        ComponentKind::Unstructured
    }

    fn name() -> (r: HeaderName) {
        proof {
            reveal_strlit("Comments");
        }
        HeaderName::from_ascii_unchecked("Comments")
    }

    fn meta() -> (r: HeaderMeta) {
        HeaderMeta { max_count_eq_1: false, contextual_validator: None }
    }

    fn component() -> (r: ComponentKind) {
        ComponentKind::Unstructured
    }
}

/// `Keywords`: keywords of the message (RFC 5322).
pub struct Keywords;

impl Header for Keywords {
    open spec fn spec_name() -> Seq<char> {
        "Keywords"@
    }

    open spec fn spec_meta() -> HeaderMeta {
        HeaderMeta { max_count_eq_1: false, contextual_validator: None }
    }

    open spec fn spec_component() -> ComponentKind {
        ComponentKind::PhraseList
    }

    fn name() -> (r: HeaderName) {
        proof {
            reveal_strlit("Keywords");
        }
        HeaderName::from_ascii_unchecked("Keywords")
    }

    fn meta() -> (r: HeaderMeta) {
        HeaderMeta { max_count_eq_1: false, contextual_validator: None }
    }

    fn component() -> (r: ComponentKind) {
        ComponentKind::PhraseList
    }
}

/// `Resent-From`: who resent the message (RFC 5322).
pub struct ResentFrom;

impl Header for ResentFrom {
    open spec fn spec_name() -> Seq<char> {
        "Resent-From"@
    }

    open spec fn spec_meta() -> HeaderMeta {
        HeaderMeta { max_count_eq_1: false, contextual_validator: Some(ContextualValidator::ResentAny) }
    }

    open spec fn spec_component() -> ComponentKind {
        ComponentKind::MailboxList
    }

    fn name() -> (r: HeaderName) {
        proof {
            reveal_strlit("Resent-From");
        }
        HeaderName::from_ascii_unchecked("Resent-From")
    }

    fn meta() -> (r: HeaderMeta) {
        HeaderMeta { max_count_eq_1: false, contextual_validator: Some(ContextualValidator::ResentAny) }
    }

    fn component() -> (r: ComponentKind) {
        ComponentKind::MailboxList
    }
}

/// `Resent-Sender`: the agent which resent the message (RFC 5322).
pub struct ResentSender;

impl Header for ResentSender {
    open spec fn spec_name() -> Seq<char> {
        "Resent-Sender"@
    }

    open spec fn spec_meta() -> HeaderMeta {
        HeaderMeta { max_count_eq_1: false, contextual_validator: Some(ContextualValidator::ResentAny) }
    }

    open spec fn spec_component() -> ComponentKind {
        ComponentKind::Mailbox
    }

    fn name() -> (r: HeaderName) {
        proof {
            reveal_strlit("Resent-Sender");
        }
        HeaderName::from_ascii_unchecked("Resent-Sender")
    }

    fn meta() -> (r: HeaderMeta) {
        HeaderMeta { max_count_eq_1: false, contextual_validator: Some(ContextualValidator::ResentAny) }
    }

    fn component() -> (r: ComponentKind) {
        ComponentKind::Mailbox
    }
}

/// `Resent-To`: the primary recipients of a resent message (RFC 5322).
pub struct ResentTo;

impl Header for ResentTo {
    open spec fn spec_name() -> Seq<char> {
        "Resent-To"@
    }

    open spec fn spec_meta() -> HeaderMeta {
        HeaderMeta { max_count_eq_1: false, contextual_validator: Some(ContextualValidator::ResentAny) }
    }

    open spec fn spec_component() -> ComponentKind {
        ComponentKind::MailboxList
    }

    fn name() -> (r: HeaderName) {
        proof {
            reveal_strlit("Resent-To");
        }
        HeaderName::from_ascii_unchecked("Resent-To")
    }

    fn meta() -> (r: HeaderMeta) {
        HeaderMeta { max_count_eq_1: false, contextual_validator: Some(ContextualValidator::ResentAny) }
    }

    fn component() -> (r: ComponentKind) {
        ComponentKind::MailboxList
    }
}

/// `Resent-Cc`: further recipients of a resent message (RFC 5322).
pub struct ResentCc;

impl Header for ResentCc {
    open spec fn spec_name() -> Seq<char> {
        "Resent-Cc"@
    }

    open spec fn spec_meta() -> HeaderMeta {
        HeaderMeta { max_count_eq_1: false, contextual_validator: Some(ContextualValidator::ResentAny) }
    }

    open spec fn spec_component() -> ComponentKind {
        ComponentKind::MailboxList
    }

    fn name() -> (r: HeaderName) {
        proof {
            reveal_strlit("Resent-Cc");
        }
        HeaderName::from_ascii_unchecked("Resent-Cc")
    }

    fn meta() -> (r: HeaderMeta) {
        HeaderMeta { max_count_eq_1: false, contextual_validator: Some(ContextualValidator::ResentAny) }
    }

    fn component() -> (r: ComponentKind) {
        ComponentKind::MailboxList
    }
}

/// `Resent-Bcc`: hidden recipients of a resent message (RFC 5322).
pub struct ResentBcc;

impl Header for ResentBcc {
    open spec fn spec_name() -> Seq<char> {
        "Resent-Bcc"@
    }

    open spec fn spec_meta() -> HeaderMeta {
        HeaderMeta { max_count_eq_1: false, contextual_validator: Some(ContextualValidator::ResentAny) }
    }

    open spec fn spec_component() -> ComponentKind {
        ComponentKind::OptMailboxList
    }

    fn name() -> (r: HeaderName) {
        proof {
            reveal_strlit("Resent-Bcc");
        }
        HeaderName::from_ascii_unchecked("Resent-Bcc")
    }

    fn meta() -> (r: HeaderMeta) {
        HeaderMeta { max_count_eq_1: false, contextual_validator: Some(ContextualValidator::ResentAny) }
    }

    fn component() -> (r: ComponentKind) {
        ComponentKind::OptMailboxList
    }
}

/// `Resent-Msg-Id`: the identifier of a resent message (RFC 5322).
pub struct ResentMsgId;

impl Header for ResentMsgId {
    open spec fn spec_name() -> Seq<char> {
        "Resent-Msg-Id"@
    }

    open spec fn spec_meta() -> HeaderMeta {
        HeaderMeta { max_count_eq_1: false, contextual_validator: Some(ContextualValidator::ResentAny) }
    }

    open spec fn spec_component() -> ComponentKind {
        ComponentKind::MessageId
    }

    fn name() -> (r: HeaderName) {
        proof {
            reveal_strlit("Resent-Msg-Id");
        }
        HeaderName::from_ascii_unchecked("Resent-Msg-Id")
    }

    fn meta() -> (r: HeaderMeta) {
        HeaderMeta { max_count_eq_1: false, contextual_validator: Some(ContextualValidator::ResentAny) }
    }

    fn component() -> (r: ComponentKind) {
        ComponentKind::MessageId
    }
}

/// `Return-Path`: the address to which errors are reported (RFC 5322).
pub struct ReturnPath;

impl Header for ReturnPath {
    open spec fn spec_name() -> Seq<char> {
        "Return-Path"@
    }

    open spec fn spec_meta() -> HeaderMeta {
        HeaderMeta { max_count_eq_1: false, contextual_validator: None }
    }

    open spec fn spec_component() -> ComponentKind {
        ComponentKind::Path
    }

    fn name() -> (r: HeaderName) {
        proof {
            reveal_strlit("Return-Path");
        }
        HeaderName::from_ascii_unchecked("Return-Path")
    }

    fn meta() -> (r: HeaderMeta) {
        HeaderMeta { max_count_eq_1: false, contextual_validator: None }
    }

    fn component() -> (r: ComponentKind) {
        ComponentKind::Path
    }
}

/// `Received`: a trace of a relay of the message (RFC 5322).
pub struct Received;

impl Header for Received {
    open spec fn spec_name() -> Seq<char> {
        "Received"@
    }

    open spec fn spec_meta() -> HeaderMeta {
        HeaderMeta { max_count_eq_1: false, contextual_validator: None }
    }

    open spec fn spec_component() -> ComponentKind {
        ComponentKind::ReceivedToken
    }

    fn name() -> (r: HeaderName) {
        proof {
            reveal_strlit("Received");
        }
        HeaderName::from_ascii_unchecked("Received")
    }

    fn meta() -> (r: HeaderMeta) {
        HeaderMeta { max_count_eq_1: false, contextual_validator: None }
    }

    fn component() -> (r: ComponentKind) {
        ComponentKind::ReceivedToken
    }
}

/// `Content-Type`: the media type of the body (RFC 2045).
pub struct ContentType;

impl Header for ContentType {
    open spec fn spec_name() -> Seq<char> {
        "Content-Type"@
    }

    open spec fn spec_meta() -> HeaderMeta {
        HeaderMeta { max_count_eq_1: true, contextual_validator: None }
    }

    open spec fn spec_component() -> ComponentKind {
        ComponentKind::Mime
    }

    fn name() -> (r: HeaderName) {
        proof {
            reveal_strlit("Content-Type");
        }
        HeaderName::from_ascii_unchecked("Content-Type")
    }

    fn meta() -> (r: HeaderMeta) {
        HeaderMeta { max_count_eq_1: true, contextual_validator: None }
    }

    fn component() -> (r: ComponentKind) {
        ComponentKind::Mime
    }
}

impl SingularHeaderMarker for ContentType {}

/// `Content-Transfer-Encoding`: how the body is encoded (RFC 2045).
pub struct ContentTransferEncoding;

impl Header for ContentTransferEncoding {
    open spec fn spec_name() -> Seq<char> {
        "Content-Transfer-Encoding"@
    }

    open spec fn spec_meta() -> HeaderMeta {
        HeaderMeta { max_count_eq_1: true, contextual_validator: None }
    }

    open spec fn spec_component() -> ComponentKind {
        ComponentKind::TransferEncoding
    }

    fn name() -> (r: HeaderName) {
        proof {
            reveal_strlit("Content-Transfer-Encoding");
        }
        HeaderName::from_ascii_unchecked("Content-Transfer-Encoding")
    }

    fn meta() -> (r: HeaderMeta) {
        HeaderMeta { max_count_eq_1: true, contextual_validator: None }
    }

    fn component() -> (r: ComponentKind) {
        ComponentKind::TransferEncoding
    }
}

impl SingularHeaderMarker for ContentTransferEncoding {}

/// `Content-Description`: a description of the body (RFC 2045).
pub struct ContentDescription;

impl Header for ContentDescription {
    open spec fn spec_name() -> Seq<char> {
        "Content-Description"@
    }

    open spec fn spec_meta() -> HeaderMeta {
        HeaderMeta { max_count_eq_1: true, contextual_validator: None }
    }

    open spec fn spec_component() -> ComponentKind {
        ComponentKind::Unstructured
    }

    fn name() -> (r: HeaderName) {
        proof {
            reveal_strlit("Content-Description");
        }
        HeaderName::from_ascii_unchecked("Content-Description")
    }

    fn meta() -> (r: HeaderMeta) {
        HeaderMeta { max_count_eq_1: true, contextual_validator: None }
    }

    fn component() -> (r: ComponentKind) {
        ComponentKind::Unstructured
    }
}

impl SingularHeaderMarker for ContentDescription {}

/// `Content-Disposition`: how the body is to be presented (RFC 2183).
pub struct ContentDisposition;

impl Header for ContentDisposition {
    open spec fn spec_name() -> Seq<char> {
        "Content-Disposition"@
    }

    open spec fn spec_meta() -> HeaderMeta {
        HeaderMeta { max_count_eq_1: true, contextual_validator: None }
    }

    open spec fn spec_component() -> ComponentKind {
        ComponentKind::Disposition
    }

    fn name() -> (r: HeaderName) {
        proof {
            reveal_strlit("Content-Disposition");
        }
        HeaderName::from_ascii_unchecked("Content-Disposition")
    }

    fn meta() -> (r: HeaderMeta) {
        HeaderMeta { max_count_eq_1: true, contextual_validator: None }
    }

    fn component() -> (r: ComponentKind) {
        ComponentKind::Disposition
    }
}

impl SingularHeaderMarker for ContentDisposition {}

/// The name every header field of a resent block starts with.
pub open spec fn resent_prefix() -> Seq<char> {
    seq!['R', 'e', 's', 'e', 'n', 't', '-']
}

/// Whether the field belongs to a resent block: its name starts with
/// `Resent-`.
pub open spec fn spec_is_resent(e: HeaderEntry) -> bool {
    e.name@.len() >= 7 && e.name@.take(7) == resent_prefix()
}

/// Selects the fields of resent blocks.
pub open spec fn resent_fields() -> spec_fn(HeaderEntry) -> bool {
    |e: HeaderEntry| spec_is_resent(e)
}

/// The name of the `Resent-Date` header.
pub open spec fn resent_date_name() -> Seq<char> {
    "Resent-Date"@
}

/// Whether the name starts with `Resent-`.
pub fn is_resent_name(name: &HeaderName) -> (r: bool)
    ensures
        r == (name@.len() >= 7 && name@.take(7) == resent_prefix()),
{
    let c = str_chars(name.as_str());
    if c.len() < 7 {
        return false;
    }
    let r = c[0] == 'R' && c[1] == 'e' && c[2] == 's' && c[3] == 'e' && c[4] == 'n' && c[5] == 't'
        && c[6] == '-';
    proof {
        if r {
            assert(c@.take(7) =~= resent_prefix());
        } else if c@.take(7) == resent_prefix() {
            assert(c@.take(7)[0] == 'R' && c@.take(7)[1] == 'e' && c@.take(7)[2] == 's');
            assert(c@.take(7)[3] == 'e' && c@.take(7)[4] == 'n' && c@.take(7)[5] == 't');
            assert(c@.take(7)[6] == '-');
        }
    }
    r
}

/// The `From` validator: a `From` with more than one mailbox needs a
/// `Sender`; `From` fields of another component type are not looked at.
pub open spec fn spec_validate_from(s: Seq<HeaderEntry>) -> Result<(), HeaderError> {
    let needs_sender = exists|i: int|
        0 <= i < s.len() && (#[trigger] s[i]).name@ == FromHeader::spec_name()
            && s[i].body.spec_is_multi_mailbox_list();
    if needs_sender && !has_entry_named(s, Sender::spec_name()) {
        Err(HeaderError::MultiMailboxFromWithoutSender)
    } else {
        Ok(())
    }
}

/// A resent block is valid if it has a `Resent-Date`, and a
/// `Resent-Sender` where its `Resent-From` has more than one mailbox.
pub open spec fn spec_validate_resent_block(block: Seq<HeaderEntry>) -> Result<(), HeaderError> {
    let needs_sender = exists|i: int|
        0 <= i < block.len() && (#[trigger] block[i]).name@ == ResentFrom::spec_name()
            && block[i].body.spec_is_multi_mailbox_list();
    if !has_entry_named(block, resent_date_name()) {
        Err(HeaderError::ResentBlockWithoutDate)
    } else if needs_sender && !has_entry_named(block, ResentSender::spec_name()) {
        Err(HeaderError::ResentBlockWithoutSender)
    } else {
        Ok(())
    }
}

/// Splitting the resent fields `rs` into blocks, from the front: a field
/// whose name is already in the current block starts a new block, after
/// the current one was validated. The result so far and the open block.
pub open spec fn resent_scan(rs: Seq<HeaderEntry>) -> (Result<(), HeaderError>, Seq<HeaderEntry>)
    decreases rs.len(),
{
    if rs.len() == 0 {
        (Ok(()), Seq::empty())
    } else {
        let (r, block) = resent_scan(rs.drop_last());
        let e = rs.last();
        if r is Err {
            (r, block)
        } else if has_entry_named(block, e.name@) {
            match spec_validate_resent_block(block) {
                Err(x) => (Err(x), block),
                Ok(_) => (Ok(()), seq![e]),
            }
        } else {
            (Ok(()), block.push(e))
        }
    }
}

/// The resent validator: each block of resent fields, in the order of the
/// map, is valid (see `spec_validate_resent_block`); the first invalid
/// block gives the error.
pub open spec fn spec_resent_any(s: Seq<HeaderEntry>) -> Result<(), HeaderError> {
    let (r, block) = resent_scan(s.filter(resent_fields()));
    if r is Err {
        r
    } else {
        spec_validate_resent_block(block)
    }
}

/// The entries behind the references.
pub open spec fn deref_all(b: Seq<&HeaderEntry>) -> Seq<HeaderEntry> {
    b.map_values(|r: &HeaderEntry| *r)
}

/// Whether some entry of the block is named `name`.
fn block_has(block: &Vec<&HeaderEntry>, name: &HeaderName) -> (r: bool)
    ensures
        r == has_entry_named(deref_all(block@), name@),
{
    let mut i: usize = 0;
    while i < block.len()
        invariant
            i <= block.len(),
            forall|j: int| 0 <= j < i ==> (#[trigger] deref_all(block@)[j]).name@ != name@,
        decreases block.len() - i,
    {
        if str_eq(block[i].name.as_str(), name.as_str()) {
            assert(deref_all(block@)[i as int].name@ == name@);
            return true;
        }
        i = i + 1;
    }
    false
}

/// Validates one resent block (see `spec_validate_resent_block`).
fn validate_resent_block(block: &Vec<&HeaderEntry>) -> (r: Result<(), HeaderError>)
    ensures
        r == spec_validate_resent_block(deref_all(block@)),
{
    let ghost b = deref_all(block@);
    let date = {
        proof {
            reveal_strlit("Resent-Date");
        }
        HeaderName::from_ascii_unchecked("Resent-Date")
    };
    if !block_has(block, &date) {
        return Err(HeaderError::ResentBlockWithoutDate);
    }
    let from = ResentFrom::name();
    let mut needs_sender = false;
    let mut i: usize = 0;
    while i < block.len()
        invariant
            i <= block.len(),
            b == deref_all(block@),
            from@ == ResentFrom::spec_name(),
            needs_sender == exists|j: int|
                0 <= j < i && (#[trigger] b[j]).name@ == ResentFrom::spec_name()
                    && b[j].body.spec_is_multi_mailbox_list(),
        decreases block.len() - i,
    {
        if str_eq(block[i].name.as_str(), from.as_str()) && block[i].body.is_multi_mailbox_list() {
            assert(b[i as int] == *block@[i as int]);
            needs_sender = true;
        }
        i = i + 1;
    }
    if needs_sender && !block_has(block, &ResentSender::name()) {
        return Err(HeaderError::ResentBlockWithoutSender);
    }
    Ok(())
}

/// The `From` validator (see `spec_validate_from`).
pub fn validate_from(map: &HeaderMap) -> (r: Result<(), HeaderError>)
    ensures
        r == spec_validate_from(map@),
{
    let entries = map.iter();
    let from = FromHeader::name();
    let mut needs_sender = false;
    let mut i: usize = 0;
    while i < entries.len()
        invariant
            i <= entries.len(),
            entries@ == map@,
            from@ == FromHeader::spec_name(),
            needs_sender == exists|j: int|
                0 <= j < i && (#[trigger] entries@[j]).name@ == FromHeader::spec_name()
                    && entries@[j].body.spec_is_multi_mailbox_list(),
        decreases entries.len() - i,
    {
        if str_eq(entries[i].name.as_str(), from.as_str()) && entries[i].body.is_multi_mailbox_list() {
            needs_sender = true;
        }
        i = i + 1;
    }
    if needs_sender && !map.contains(&Sender::name()) {
        return Err(HeaderError::MultiMailboxFromWithoutSender);
    }
    Ok(())
}

/// The resent validator (see `spec_resent_any`): it succeeds exactly
/// when every resent block of the map is valid.
pub fn resent_any(map: &HeaderMap) -> (r: Result<(), HeaderError>)
    ensures
        r == spec_resent_any(map@),
        forall|bs: Seq<Seq<HeaderEntry>>|
            #![trigger is_resent_blocking(map@.filter(resent_fields()), bs)]
            is_resent_blocking(map@.filter(resent_fields()), bs) ==> (r is Ok <==> forall|i: int|
                0 <= i < bs.len() ==> (#[trigger] spec_validate_resent_block(bs[i])) is Ok),
{
    let r = resent_any_scan(map);
    proof {
        assert forall|bs: Seq<Seq<HeaderEntry>>|
            #![trigger is_resent_blocking(map@.filter(resent_fields()), bs)]
            is_resent_blocking(map@.filter(resent_fields()), bs) implies (r is Ok <==> forall|i: int|
                0 <= i < bs.len() ==> (#[trigger] spec_validate_resent_block(bs[i])) is Ok) by {
            lemma_resent_any_blocks(map@, bs);
        }
    }
    r
}

/// Scans the resent fields of the map block by block.
fn resent_any_scan(map: &HeaderMap) -> (r: Result<(), HeaderError>)
    ensures
        r == spec_resent_any(map@),
{
    let entries = map.iter();
    let ghost s = map@;
    let ghost p = resent_fields();
    let mut block: Vec<&HeaderEntry> = Vec::new();
    let mut i: usize = 0;
    while i < entries.len()
        invariant
            i <= entries.len(),
            entries@ == s,
            s == map@,
            p == resent_fields(),
            resent_scan(s.take(i as int).filter(p)) == (Ok::<(), HeaderError>(()), deref_all(block@)),
        decreases entries.len() - i,
    {
        let e = &entries[i];
        proof {
            assert(s.take(i + 1).drop_last() =~= s.take(i as int));
            assert(s.take(i + 1).last() == s[i as int]);
            lemma_filter_step(s.take(i + 1), p);
        }
        if is_resent_name(&e.name) {
            let ghost rs = s.take(i + 1).filter(p);
            proof {
                assert(rs.drop_last() == s.take(i as int).filter(p));
                assert(rs.last() == *e);
            }
            if block_has(&block, &e.name) {
                match validate_resent_block(&block) {
                    Ok(()) => {},
                    Err(x) => {
                        proof {
                            assert(resent_scan(rs).0 == Err::<(), HeaderError>(x));
                            lemma_filter_take(s, p, i + 1);
                            lemma_resent_scan_stops(s.filter(p), rs.len() as int);
                        }
                        return Err(x);
                    },
                }
                block = Vec::new();
                block.push(e);
                proof {
                    assert(deref_all(block@) =~= seq![*e]);
                }
            } else {
                block.push(e);
                proof {
                    assert(deref_all(block@) =~= resent_scan(rs.drop_last()).1.push(*e));
                }
            }
        }
        i = i + 1;
    }
    proof {
        assert(s.take(i as int) =~= s);
    }
    validate_resent_block(&block)
}

/// Once the scan of resent blocks failed, later fields change nothing.
proof fn lemma_resent_scan_stops(rs: Seq<HeaderEntry>, k: int)
    requires
        0 <= k <= rs.len(),
        resent_scan(rs.take(k)).0 is Err,
    ensures
        resent_scan(rs) == resent_scan(rs.take(k)),
    decreases rs.len(),
{
    if k < rs.len() {
        assert(rs.drop_last().take(k) =~= rs.take(k));
        lemma_resent_scan_stops(rs.drop_last(), k);
    } else {
        assert(rs.take(k) =~= rs);
    }
}

/// Filtering a prefix gives a prefix of the filtered sequence.
proof fn lemma_filter_take<A>(s: Seq<A>, p: spec_fn(A) -> bool, n: int)
    requires
        0 <= n <= s.len(),
    ensures
        s.take(n).filter(p).len() <= s.filter(p).len(),
        s.filter(p).take(s.take(n).filter(p).len() as int) == s.take(n).filter(p),
{
    assert(s =~= s.take(n) + s.skip(n));
    Seq::filter_distributes_over_add(s.take(n), s.skip(n), p);
    assert((s.take(n).filter(p) + s.skip(n).filter(p)).take(s.take(n).filter(p).len() as int)
        =~= s.take(n).filter(p));
}

/// The contextual validators of the fields, each once, in the order in
/// which they first appear.
pub open spec fn validators_in_order(s: Seq<HeaderEntry>) -> Seq<ContextualValidator>
    decreases s.len(),
{
    if s.len() == 0 {
        Seq::empty()
    } else {
        let p = validators_in_order(s.drop_last());
        match s.last().meta.contextual_validator {
            Some(v) => if p.contains(v) {
                p
            } else {
                p.push(v)
            },
            None => p,
        }
    }
}

/// What a contextual validator says of the fields.
pub open spec fn spec_run_validator(v: ContextualValidator, s: Seq<HeaderEntry>) -> Result<
    (),
    HeaderError,
> {
    match v {
        ContextualValidator::FromSender => spec_validate_from(s),
        ContextualValidator::ResentAny => spec_resent_any(s),
    }
}

/// Running the validators `vs` in their order on the fields, up to the
/// first error.
pub open spec fn spec_run_validators(vs: Seq<ContextualValidator>, s: Seq<HeaderEntry>) -> Result<
    (),
    HeaderError,
>
    decreases vs.len(),
{
    if vs.len() == 0 {
        Ok(())
    } else {
        match spec_run_validators(vs.drop_last(), s) {
            Err(e) => Err(e),
            Ok(_) => spec_run_validator(vs.last(), s),
        }
    }
}

/// The validators of a prefix of the fields are a prefix of those of all.
proof fn lemma_validators_prefix(s: Seq<HeaderEntry>, n: int)
    requires
        0 <= n <= s.len(),
    ensures
        validators_in_order(s.take(n)).len() <= validators_in_order(s).len(),
        validators_in_order(s).take(validators_in_order(s.take(n)).len() as int)
            == validators_in_order(s.take(n)),
    decreases s.len(),
{
    if n == s.len() {
        assert(s.take(n) =~= s);
        assert(validators_in_order(s).take(validators_in_order(s).len() as int) =~= validators_in_order(s));
    } else {
        assert(s.drop_last().take(n) =~= s.take(n));
        lemma_validators_prefix(s.drop_last(), n);
        let a = validators_in_order(s.take(n));
        let b = validators_in_order(s.drop_last());
        let c = validators_in_order(s);
        assert(c.take(a.len() as int) =~= b.take(a.len() as int));
    }
}

/// Once running the validators failed, later validators change nothing.
proof fn lemma_run_validators_stops(vs: Seq<ContextualValidator>, k: int, s: Seq<HeaderEntry>)
    requires
        0 <= k <= vs.len(),
        spec_run_validators(vs.take(k), s) is Err,
    ensures
        spec_run_validators(vs, s) == spec_run_validators(vs.take(k), s),
    decreases vs.len(),
{
    if k < vs.len() {
        assert(vs.drop_last().take(k) =~= vs.take(k));
        lemma_run_validators_stops(vs.drop_last(), k, s);
    } else {
        assert(vs.take(k) =~= vs);
    }
}

/// Whether `v` is one of `vs`.
fn validator_seen(vs: &Vec<ContextualValidator>, v: ContextualValidator) -> (r: bool)
    ensures
        r == vs@.contains(v),
{
    let mut i: usize = 0;
    while i < vs.len()
        invariant
            i <= vs.len(),
            forall|j: int| 0 <= j < i ==> vs@[j] != v,
        decreases vs.len() - i,
    {
        if vs[i] == v {
            return true;
        }
        i = i + 1;
    }
    false
}

/// Runs the contextual validator `v` on the map.
pub fn run_validator(v: ContextualValidator, map: &HeaderMap) -> (r: Result<(), HeaderError>)
    ensures
        r == spec_run_validator(v, map@),
{
    match v {
        ContextualValidator::FromSender => validate_from(map),
        ContextualValidator::ResentAny => resent_any(map),
    }
}

impl HeaderMap {
    /// Calls each contextual validator of the fields exactly once, in the
    /// order in which they first appear; the first error is returned.
    pub fn use_contextual_validators(&self) -> (r: Result<(), HeaderError>)
        ensures
            r == spec_run_validators(validators_in_order(self@), self@),
    {
        let entries = self.iter();
        let ghost s = self@;
        let mut seen: Vec<ContextualValidator> = Vec::new();
        let mut i: usize = 0;
        while i < entries.len()
            invariant
                i <= entries.len(),
                entries@ == s,
                s == self@,
                seen@ == validators_in_order(s.take(i as int)),
                spec_run_validators(seen@, s) == Ok::<(), HeaderError>(()),
            decreases entries.len() - i,
        {
            proof {
                assert(s.take(i + 1).drop_last() =~= s.take(i as int));
                assert(s.take(i + 1).last() == s[i as int]);
            }
            match entries[i].meta.contextual_validator {
                Some(v) => {
                    if !validator_seen(&seen, v) {
                        let ghost before = seen@;
                        match run_validator(v, self) {
                            Ok(()) => {
                                seen.push(v);
                                proof {
                                    assert(seen@.drop_last() =~= before);
                                }
                            },
                            Err(x) => {
                                proof {
                                    let vs = before.push(v);
                                    assert(vs.drop_last() =~= before);
                                    lemma_validators_prefix(s, i + 1);
                                    lemma_run_validators_stops(
                                        validators_in_order(s),
                                        vs.len() as int,
                                        s,
                                    );
                                }
                                return Err(x);
                            },
                        }
                    }
                },
                None => {},
            }
            i = i + 1;
        }
        proof {
            assert(s.take(i as int) =~= s);
        }
        Ok(())
    }
}

/// The entries of the blocks, one block after the other.
pub open spec fn flatten_blocks(bs: Seq<Seq<HeaderEntry>>) -> Seq<HeaderEntry>
    decreases bs.len(),
{
    if bs.len() == 0 {
        Seq::empty()
    } else {
        flatten_blocks(bs.drop_last()) + bs.last()
    }
}

/// No two entries of the block share a name.
pub open spec fn names_distinct(b: Seq<HeaderEntry>) -> bool {
    forall|i: int, j: int| 0 <= i < j < b.len() ==> (#[trigger] b[i]).name@ != (#[trigger] b[j]).name@
}

/// `bs` splits the resent fields `rs` into resent blocks: in their order,
/// no name twice in a block, and a block ends only where the next field's
/// name is already in it. Without resent fields there is one empty block.
pub open spec fn is_resent_blocking(rs: Seq<HeaderEntry>, bs: Seq<Seq<HeaderEntry>>) -> bool {
    &&& bs.len() >= 1
    &&& flatten_blocks(bs) == rs
    &&& forall|i: int| 0 <= i < bs.len() ==> names_distinct(#[trigger] bs[i])
    &&& forall|i: int|
        0 <= i < bs.len() - 1 ==> has_entry_named(#[trigger] bs[i], bs[i + 1][0].name@)
    &&& rs.len() == 0 ==> bs.len() == 1
    &&& rs.len() > 0 ==> forall|i: int| 0 <= i < bs.len() ==> (#[trigger] bs[i]).len() > 0
}

/// The first error of validating the blocks in their order.
spec fn blocks_result(bs: Seq<Seq<HeaderEntry>>) -> Result<(), HeaderError>
    decreases bs.len(),
{
    if bs.len() == 0 {
        Ok(())
    } else {
        match blocks_result(bs.drop_last()) {
            Err(e) => Err(e),
            Ok(_) => spec_validate_resent_block(bs.last()),
        }
    }
}

proof fn lemma_blocks_result(bs: Seq<Seq<HeaderEntry>>)
    ensures
        blocks_result(bs) is Ok <==> forall|i: int|
            0 <= i < bs.len() ==> (#[trigger] spec_validate_resent_block(bs[i])) is Ok,
        blocks_result(bs) is Err ==> exists|k: int|
            0 <= k < bs.len() && blocks_result(bs) == #[trigger] spec_validate_resent_block(bs[k])
                && forall|j: int| 0 <= j < k ==> (#[trigger] spec_validate_resent_block(bs[j])) is Ok,
    decreases bs.len(),
{
    if bs.len() > 0 {
        let q = bs.drop_last();
        lemma_blocks_result(q);
        assert forall|i: int| 0 <= i < q.len() implies q[i] == bs[i] by {}
        assert(bs.last() == bs[bs.len() - 1]);
        if blocks_result(q) is Err {
            let k = choose|k: int|
                0 <= k < q.len() && blocks_result(q) == #[trigger] spec_validate_resent_block(q[k])
                    && forall|j: int| 0 <= j < k ==> (#[trigger] spec_validate_resent_block(q[j])) is Ok;
            assert(q[k] == bs[k]);
            assert forall|j: int| 0 <= j < k implies (#[trigger] spec_validate_resent_block(bs[j])) is Ok by {
                assert(q[j] == bs[j]);
                assert(spec_validate_resent_block(q[j]) is Ok);
            }
        } else {
            assert forall|j: int| 0 <= j < q.len() implies (#[trigger] spec_validate_resent_block(bs[j])) is Ok by {
                assert(q[j] == bs[j]);
                assert(spec_validate_resent_block(q[j]) is Ok);
            }
        }
    }
}

/// How the scan of resent fields relates to their blocks: it has met the
/// first error of the closed blocks, or has none and holds the last block
/// open.
proof fn lemma_resent_scan_blocks(rs: Seq<HeaderEntry>, bs: Seq<Seq<HeaderEntry>>)
    requires
        is_resent_blocking(rs, bs),
    ensures
        resent_scan(rs).0 == blocks_result(bs.drop_last()),
        resent_scan(rs).0 is Ok ==> resent_scan(rs).1 == bs.last(),
    decreases rs.len(),
{
    let n = bs.len();
    if rs.len() == 0 {
        assert(bs.drop_last() =~= Seq::<Seq<HeaderEntry>>::empty());
        assert(flatten_blocks(bs) == flatten_blocks(bs.drop_last()) + bs.last());
        assert(bs.last() =~= Seq::<HeaderEntry>::empty());
    } else {
        let e = rs.last();
        let last = bs.last();
        assert(last == bs[n - 1]);
        assert(last.len() > 0);
        assert(flatten_blocks(bs) == flatten_blocks(bs.drop_last()) + last);
        assert(rs.drop_last() =~= flatten_blocks(bs.drop_last()) + last.drop_last());
        assert(e == last.last());
        if last.len() == 1 {
            let q = bs.drop_last();
            if n == 1 {
                assert(flatten_blocks(q) =~= Seq::<HeaderEntry>::empty());
                assert(rs.drop_last() =~= Seq::<HeaderEntry>::empty());
                assert(!has_entry_named(Seq::<HeaderEntry>::empty(), e.name@));
                assert(last =~= seq![e]);
            } else {
                assert(rs.drop_last() =~= flatten_blocks(q));
                assert forall|i: int| 0 <= i < q.len() implies names_distinct(#[trigger] q[i]) by {
                    assert(q[i] == bs[i]);
                }
                assert forall|i: int| 0 <= i < q.len() - 1 implies has_entry_named(#[trigger] q[i], q[i + 1][0].name@) by {
                    assert(q[i] == bs[i] && q[i + 1] == bs[i + 1]);
                }
                assert forall|i: int| 0 <= i < q.len() implies (#[trigger] q[i]).len() > 0 by {
                    assert(q[i] == bs[i]);
                }
                lemma_resent_scan_blocks(rs.drop_last(), q);
                assert(q.last() == bs[n - 2]);
                assert(has_entry_named(bs[n - 2], bs[n - 1][0].name@));
                assert(bs[n - 1][0] == e);
                assert(q.drop_last() == bs.drop_last().drop_last());
                assert(last =~= seq![e]);
            }
        } else {
            let b2 = last.drop_last();
            let bs2 = bs.update(n - 1, b2);
            assert(bs2.drop_last() =~= bs.drop_last());
            assert(bs2.last() == b2);
            assert(flatten_blocks(bs2) == flatten_blocks(bs2.drop_last()) + b2);
            assert(rs.drop_last() =~= flatten_blocks(bs2));
            assert forall|i: int| 0 <= i < bs2.len() implies names_distinct(#[trigger] bs2[i]) by {
                if i < n - 1 {
                    assert(bs2[i] == bs[i]);
                } else {
                    assert(names_distinct(bs[n - 1]));
                    assert forall|a: int, b: int| 0 <= a < b < b2.len() implies (#[trigger] b2[a]).name@ != (#[trigger] b2[b]).name@ by {
                        assert(b2[a] == last[a] && b2[b] == last[b]);
                    }
                }
            }
            assert forall|i: int| 0 <= i < bs2.len() - 1 implies has_entry_named(#[trigger] bs2[i], bs2[i + 1][0].name@) by {
                assert(bs2[i] == bs[i]);
                if i + 1 < n - 1 {
                    assert(bs2[i + 1] == bs[i + 1]);
                } else {
                    assert(bs2[i + 1][0] == last[0]);
                }
            }
            assert forall|i: int| 0 <= i < bs2.len() implies (#[trigger] bs2[i]).len() > 0 by {
                if i < n - 1 {
                    assert(bs2[i] == bs[i]);
                }
            }
            lemma_resent_scan_blocks(rs.drop_last(), bs2);
            if resent_scan(rs.drop_last()).0 is Ok {
                assert(names_distinct(bs[n - 1]));
                if has_entry_named(b2, e.name@) {
                    let j = choose|j: int| 0 <= j < b2.len() && (#[trigger] b2[j]).name@ == e.name@;
                    assert(last[j] == b2[j]);
                    assert(last[last.len() - 1] == e);
                    assert(false);
                }
                assert(b2.push(e) =~= last);
            }
        }
    }
}

/// A split into resent blocks: a new block starts where a field's name is
/// already in the current block.
pub open spec fn greedy_blocks(rs: Seq<HeaderEntry>) -> Seq<Seq<HeaderEntry>>
    decreases rs.len(),
{
    if rs.len() == 0 {
        seq![Seq::empty()]
    } else {
        let bs = greedy_blocks(rs.drop_last());
        let e = rs.last();
        if rs.len() == 1 {
            seq![seq![e]]
        } else if has_entry_named(bs.last(), e.name@) {
            bs.push(seq![e])
        } else {
            bs.update(bs.len() - 1, bs.last().push(e))
        }
    }
}

/// A new block for a field whose name is in the last block keeps a split
/// into resent blocks.
proof fn lemma_blocking_push(r2: Seq<HeaderEntry>, p: Seq<Seq<HeaderEntry>>, e: HeaderEntry)
    requires
        r2.len() > 0,
        is_resent_blocking(r2, p),
        has_entry_named(p.last(), e.name@),
    ensures
        is_resent_blocking(r2.push(e), p.push(seq![e])),
{
    let bs = p.push(seq![e]);
    let n = p.len();
    assert(p.last() == p[n - 1]);
    assert(bs.drop_last() =~= p);
    assert(flatten_blocks(bs) == flatten_blocks(p) + seq![e]);
    assert(flatten_blocks(bs) =~= r2.push(e));
    assert forall|i: int| 0 <= i < bs.len() implies names_distinct(#[trigger] bs[i]) by {
        if i < n {
            assert(bs[i] == p[i]);
        }
    }
    assert forall|i: int| 0 <= i < bs.len() - 1 implies has_entry_named(
        #[trigger] bs[i],
        bs[i + 1][0].name@,
    ) by {
        assert(bs[i] == p[i]);
        if i + 1 < n {
            assert(bs[i + 1] == p[i + 1]);
        } else {
            assert(bs[i + 1][0] == e);
        }
    }
    assert forall|i: int| 0 <= i < bs.len() implies (#[trigger] bs[i]).len() > 0 by {
        if i < n {
            assert(bs[i] == p[i]);
        }
    }
}

/// A field whose name is not in the last block, added to it, keeps a
/// split into resent blocks.
proof fn lemma_blocking_extend(r2: Seq<HeaderEntry>, p: Seq<Seq<HeaderEntry>>, e: HeaderEntry)
    requires
        r2.len() > 0,
        is_resent_blocking(r2, p),
        !has_entry_named(p.last(), e.name@),
    ensures
        is_resent_blocking(r2.push(e), p.update(p.len() - 1, p.last().push(e))),
{
    let n = p.len();
    let b = p.last().push(e);
    let bs = p.update(n - 1, b);
    assert(p.last() == p[n - 1]);
    assert(bs.drop_last() =~= p.drop_last());
    assert(bs.last() == b);
    assert(flatten_blocks(p) == flatten_blocks(p.drop_last()) + p.last());
    assert(flatten_blocks(bs) == flatten_blocks(bs.drop_last()) + b);
    assert(flatten_blocks(bs) =~= r2.push(e));
    assert(names_distinct(p[n - 1]));
    assert forall|a: int, c: int| 0 <= a < c < b.len() implies (#[trigger] b[a]).name@ != (
    #[trigger] b[c]).name@ by {
        assert(b[a] == p.last()[a]);
        if c == b.len() - 1 {
            assert(b[c] == e);
            if b[a].name@ == e.name@ {
                assert(has_entry_named(p.last(), e.name@));
            }
        } else {
            assert(b[c] == p.last()[c]);
        }
    }
    assert forall|i: int| 0 <= i < bs.len() implies names_distinct(#[trigger] bs[i]) by {
        if i < n - 1 {
            assert(bs[i] == p[i]);
        }
    }
    assert forall|i: int| 0 <= i < bs.len() - 1 implies has_entry_named(
        #[trigger] bs[i],
        bs[i + 1][0].name@,
    ) by {
        assert(bs[i] == p[i]);
        if i + 1 < n - 1 {
            assert(bs[i + 1] == p[i + 1]);
        } else {
            assert(p[n - 1].len() > 0);
            assert(bs[i + 1][0] == p[i + 1][0]);
        }
    }
    assert forall|i: int| 0 <= i < bs.len() implies (#[trigger] bs[i]).len() > 0 by {
        if i < n - 1 {
            assert(bs[i] == p[i]);
        }
    }
}

/// Every sequence of resent fields has a split into resent blocks.
pub proof fn lemma_greedy_blocking(rs: Seq<HeaderEntry>)
    ensures
        is_resent_blocking(rs, greedy_blocks(rs)),
    decreases rs.len(),
{
    let bs = greedy_blocks(rs);
    if rs.len() == 0 {
        assert(bs == seq![Seq::<HeaderEntry>::empty()]);
        assert(bs.drop_last() =~= Seq::<Seq<HeaderEntry>>::empty());
        assert(flatten_blocks(bs) == flatten_blocks(bs.drop_last()) + bs.last());
        assert(flatten_blocks(bs) =~= Seq::<HeaderEntry>::empty());
        assert(rs =~= Seq::<HeaderEntry>::empty());
        assert(names_distinct(bs[0]));
        assert forall|i: int| 0 <= i < bs.len() implies names_distinct(#[trigger] bs[i]) by {
            assert(i == 0);
        }
        assert(is_resent_blocking(rs, bs));
    } else if rs.len() == 1 {
        assert(bs == seq![seq![rs.last()]]);
        assert(bs.drop_last() =~= Seq::<Seq<HeaderEntry>>::empty());
        assert(flatten_blocks(bs) == flatten_blocks(bs.drop_last()) + bs.last());
        assert(flatten_blocks(bs) =~= rs);
        assert forall|i: int| 0 <= i < bs.len() implies names_distinct(#[trigger] bs[i]) && bs[i].len() > 0 by {
            assert(i == 0);
        }
        assert(is_resent_blocking(rs, bs));
    } else {
        let r2 = rs.drop_last();
        lemma_greedy_blocking(r2);
        let p = greedy_blocks(r2);
        let e = rs.last();
        assert(r2.push(e) =~= rs);
        if has_entry_named(p.last(), e.name@) {
            assert(bs == p.push(seq![e]));
            lemma_blocking_push(r2, p, e);
        } else {
            assert(bs == p.update(p.len() - 1, p.last().push(e)));
            lemma_blocking_extend(r2, p, e);
        }
        assert(is_resent_blocking(rs, bs));
    }
}

/// The resent validator checks every resent block: for any split of the
/// map's resent fields into resent blocks, it succeeds exactly when each
/// block has a `Resent-Date` and, where its `Resent-From` holds several
/// mailboxes, a `Resent-Sender`; its error is that of the first block
/// which does not.
pub proof fn lemma_resent_any_blocks(s: Seq<HeaderEntry>, bs: Seq<Seq<HeaderEntry>>)
    requires
        is_resent_blocking(s.filter(resent_fields()), bs),
    ensures
        spec_resent_any(s) is Ok <==> forall|i: int|
            0 <= i < bs.len() ==> (#[trigger] spec_validate_resent_block(bs[i])) is Ok,
        spec_resent_any(s) is Err ==> exists|k: int|
            0 <= k < bs.len() && spec_resent_any(s) == #[trigger] spec_validate_resent_block(bs[k])
                && forall|j: int| 0 <= j < k ==> (#[trigger] spec_validate_resent_block(bs[j])) is Ok,
{
    let rs = s.filter(resent_fields());
    lemma_resent_scan_blocks(rs, bs);
    assert(bs.last() == bs[bs.len() - 1]);
    assert(bs.drop_last() == bs.subrange(0, bs.len() - 1));
    assert(blocks_result(bs) == match blocks_result(bs.drop_last()) {
        Err(e) => Err(e),
        Ok(_) => spec_validate_resent_block(bs.last()),
    });
    assert(spec_resent_any(s) == blocks_result(bs));
    lemma_blocks_result(bs);
}

} // verus!
