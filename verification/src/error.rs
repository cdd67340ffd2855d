//! The errors of this library.
use vstd::prelude::*;

verus! {

/// Why encoding, quoting or parsing failed.
#[derive(Debug, Clone, Copy, PartialEq, Eq, Hash, Structural)]
pub enum EncodingError {
    /// a `'\n'` not preceded by a `'\r'` was written into a header
    OrphanLf,
    /// a `'\r'` not followed by a `'\n'` was written into a header
    OrphanCr,
    /// a line would be longer than 998 bytes and could not be broken
    HardLineLengthLimit,
    /// utf8 was written into a mail which is not internationalized
    Utf8InAsciiMail,
    /// the text written as atext contains non-atext chars
    NotAtext,
    /// a non-ascii char was found where only ascii is allowed
    NotAscii(char),
    /// a char which can not appear in a quoted string was found
    NotQuotable(char),
    /// a char which can not be encoded was found
    NotEncodable(char),
    /// the input is not of the expected form
    Malformed,
    /// a header name which is not accepted
    InvalidHeaderName,
    /// converting a domain to its ascii form (IDNA) failed
    PunyCodingDomainFailed,
    /// the input is not valid base64
    InvalidBase64,
    /// a phrase needs at least one word, not only whitespace
    WhitespaceOnly,
    /// a text which has to be a token (RFC 2045) is not one
    NotAToken,
    /// the mime crate refused a media type text
    InvalidMime,
}

/// Why an operation on a header map or one of its validators failed.
#[derive(Debug, Clone, Copy, PartialEq, Eq, Hash, Structural)]
pub enum HeaderError {
    /// headers with the same name but a different quantity limitation or
    /// contextual validator were mixed
    MetaMismatch,
    /// a header body is not of the component type the header asks for
    TypeMismatch,
    /// a `From` with more than one mailbox but no `Sender`
    MultiMailboxFromWithoutSender,
    /// a block of resent headers without a `Resent-Date`
    ResentBlockWithoutDate,
    /// a block of resent headers with a multi-mailbox `Resent-From` but
    /// no `Resent-Sender`
    ResentBlockWithoutSender,
}

/// Why an extended builder operation failed.
#[derive(Debug, Clone, Copy, PartialEq, Eq, Hash, Structural)]
pub enum ExtendedBuilderErrorKind {
    /// need embedding to create a body with an embedding
    EmbeddingMissing,
}

/// Why building the data for sending a mail failed.
#[derive(Debug, Clone, Copy, PartialEq, Eq, Hash, Structural)]
pub enum MailSendDataErrorKind {
    /// No `From` was set.
    MissingFrom,
    /// No `To` was set.
    MissingTo,
    /// No `Subject` was set.
    MissingSubject,
    /// No `TemplateId` was given.
    MissingTemplateId,
    /// No `TemplateData` was given.
    MissingTemplateData,
    /// Multiple mailboxes in the from field but no sender field.
    MultiFromButNoSender,
}

/// Why loading a file failed.
#[derive(Debug, Clone, PartialEq, Eq, Hash)]
pub enum FileLoadError {
    /// there is no file under the path (given as its key)
    NotFound(String),
}

/// An error together with the value which caused it.
#[derive(Debug)]
pub struct WithSource<E, S> {
    error: E,
    source: S,
}

impl<E, S> WithSource<E, S> {
    pub closed spec fn spec_error(&self) -> E {
        self.error
    }

    pub closed spec fn spec_source(&self) -> S {
        self.source
    }

    /// Combines `error` with the `source` which caused it.
    pub fn new(error: E, source: S) -> (r: Self)
        ensures
            r.spec_error() == error,
            r.spec_source() == source,
    {
        WithSource { error, source }
    }

    /// The source of the error.
    pub fn source(&self) -> (r: &S)
        ensures
            *r == self.spec_source(),
    {
        &self.source
    }

    /// The error.
    pub fn error(&self) -> (r: &E)
        ensures
            *r == self.spec_error(),
    {
        &self.error
    }

    /// The source, dropping the error.
    pub fn into_source(self) -> (r: S)
        ensures
            r == self.spec_source(),
    {
        self.source
    }

    /// The error, dropping the source.
    pub fn into_error(self) -> (r: E)
        ensures
            r == self.spec_error(),
    {
        self.error
    }

    /// The error and its source.
    pub fn split(self) -> (r: (E, S))
        ensures
            r == (self.spec_error(), self.spec_source()),
    {
        (self.error, self.source)
    }
}

/// A result without a value which is not an error is `Ok(())`.
pub proof fn lemma_unit_ok(r: Result<(), EncodingError>)
    ensures
        r is Ok ==> r == Ok::<(), EncodingError>(()),
{
    if let Ok(u) = r {
        let unit: () = u;
        assert(r == Ok::<(), EncodingError>(unit));
    }
}

} // verus!
