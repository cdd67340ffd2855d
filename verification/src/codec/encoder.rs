//! A buffer for encoding mail headers which keeps track of lines, the places
//! where a line may be broken (FWS) and the line length limits of RFC 5322.
use vstd::prelude::*;

use crate::error::EncodingError;
use crate::grammar::{is_atext, spec_is_ascii, spec_is_atext, MailType};
use crate::utils::{
    char_len, char_utf8_len, lemma_utf8_len_concat, lemma_utf8_len_positive,
    lemma_utf8_len_single, string_push, utf8_len,
};

verus! {

/// as specified in RFC 5322 not including CRLF
pub const LINE_LEN_SOFT_LIMIT: usize = 78;

/// as specified in RFC 5322 (mail) + RFC 5321 (smtp) not including CRLF
pub const LINE_LEN_HARD_LIMIT: usize = 998;

/// A record of what was done through an `EncodeHeaderHandle`.
///
/// For example when calling `.write_utf8("hy")` the tokens
/// `[NowUtf8, Text("hy")]` are recorded.
#[derive(Debug, Clone, PartialEq, Eq, Hash)]
pub enum Token {
    MarkFWS,
    CRLF,
    TruncateToCRLF,
    Text(String),
    NowChar,
    NowStr,
    NowAText,
    NowUtf8,
    NowUnchecked,
    NewSection,
    End,
    /// used to separate a header from a body
    BlankLine,
}

/// `Token` with the text as a sequence of chars.
pub ghost enum TokenView {
    MarkFWS,
    CRLF,
    TruncateToCRLF,
    Text(Seq<char>),
    NowChar,
    NowStr,
    NowAText,
    NowUtf8,
    NowUnchecked,
    NewSection,
    End,
    BlankLine,
}

pub open spec fn token_view(t: Token) -> TokenView {
    match t {
        Token::MarkFWS => TokenView::MarkFWS,
        Token::CRLF => TokenView::CRLF,
        Token::TruncateToCRLF => TokenView::TruncateToCRLF,
        Token::Text(s) => TokenView::Text(s@),
        Token::NowChar => TokenView::NowChar,
        Token::NowStr => TokenView::NowStr,
        Token::NowAText => TokenView::NowAText,
        Token::NowUtf8 => TokenView::NowUtf8,
        Token::NowUnchecked => TokenView::NowUnchecked,
        Token::NewSection => TokenView::NewSection,
        Token::End => TokenView::End,
        Token::BlankLine => TokenView::BlankLine,
    }
}

pub open spec fn trace_view(t: Seq<Token>) -> Seq<TokenView> {
    t.map_values(|x: Token| token_view(x))
}

/// Records that `c` was written: extends a trailing `Text` token or starts a new one.
pub open spec fn push_text(trace: Seq<TokenView>, c: char) -> Seq<TokenView> {
    if trace.len() > 0 && trace.last() is Text {
        trace.update(trace.len() - 1, TokenView::Text(trace.last()->Text_0.push(c)))
    } else {
        trace.push(TokenView::Text(seq![c]))
    }
}

/// The state of a header buffer: the written chars, the recorded tokens and
/// the positions (char indices) the line breaking logic keeps track of.
pub ghost struct HeaderView {
    pub buffer: Seq<char>,
    pub trace: Seq<TokenView>,
    pub mail_type: MailType,
    /// where the header currently written started
    pub header_start: int,
    /// where the current line started
    pub line_start: int,
    /// the last place where the line may be broken
    pub last_fws: int,
    /// a `'\r'` was written but not yet put into the buffer
    pub skipped_cr: bool,
    /// non-WS chars were written since the last FWS mark (or line start)
    pub content_since_fws: bool,
    /// non-WS chars were written before the last FWS mark on this line
    pub content_before_fws: bool,
    /// where the tokens of the header currently written started
    pub trace_start: int,
}

impl HeaderView {
    pub open spec fn well_formed(self) -> bool {
        &&& 0 <= self.header_start <= self.line_start <= self.buffer.len()
        &&& self.header_start <= self.last_fws <= self.buffer.len()
        &&& 0 <= self.trace_start <= self.trace.len()
        &&& utf8_len(self.buffer.subrange(self.line_start, self.buffer.len() as int)) <= 998
    }

    pub open spec fn line_has_content(self) -> bool {
        self.content_before_fws || self.content_since_fws
    }

    /// the length of the current line in bytes (utf8)
    pub open spec fn line_bytes(self) -> nat {
        utf8_len(self.buffer.subrange(self.line_start, self.buffer.len() as int))
    }

    pub open spec fn with_token(self, t: TokenView) -> HeaderView {
        HeaderView { trace: self.trace.push(t), ..self }
    }

    /// Ends the current line: with CRLF if it has content, else by removing
    /// the blank (whitespace only) line.
    pub open spec fn start_new_line(self) -> HeaderView {
        let buffer = if self.line_has_content() {
            self.buffer + seq!['\r', '\n']
        } else {
            self.buffer.subrange(0, self.line_start)
        };
        let tok = if self.line_has_content() {
            TokenView::CRLF
        } else {
            TokenView::TruncateToCRLF
        };
        HeaderView {
            buffer: buffer,
            trace: self.trace.push(tok),
            line_start: buffer.len() as int,
            last_fws: buffer.len() as int,
            content_since_fws: false,
            content_before_fws: false,
            ..self
        }
    }

    pub open spec fn can_break(self) -> bool {
        self.content_before_fws && self.last_fws > self.line_start
    }

    /// Inserts a soft line break (`"\r\n "`) at the last FWS mark.
    pub open spec fn break_line(self) -> HeaderView {
        HeaderView {
            buffer: self.buffer.subrange(0, self.last_fws) + seq!['\r', '\n', ' ']
                + self.buffer.subrange(self.last_fws, self.buffer.len() as int),
            line_start: self.last_fws + 2,
            content_before_fws: false,
            ..self
        }
    }

    pub open spec fn push_char(self, c: char) -> HeaderView {
        HeaderView {
            buffer: self.buffer.push(c),
            trace: push_text(self.trace, c),
            content_since_fws: self.content_since_fws || !(c == ' ' || c == '\t'),
            ..self
        }
    }

    /// Writing a single char.
    pub open spec fn write_char(self, c: char) -> Result<HeaderView, EncodingError> {
        if c == '\n' {
            if self.skipped_cr {
                Ok(HeaderView { skipped_cr: false, ..self.start_new_line() })
            } else {
                Err(EncodingError::OrphanLf)
            }
        } else if self.skipped_cr {
            Err(EncodingError::OrphanCr)
        } else if c == '\r' {
            Ok(HeaderView { skipped_cr: true, ..self })
        } else if self.line_bytes() >= 78 {
            if self.can_break() {
                Ok(self.break_line().push_char(c))
            } else if self.line_bytes() + char_len(c) > 998 {
                Err(EncodingError::HardLineLengthLimit)
            } else {
                Ok(self.push_char(c))
            }
        } else {
            Ok(self.push_char(c))
        }
    }

    /// Writing chars one after the other, stopping at the first error.
    /// The state reached before the failing char is kept.
    pub open spec fn write_chars(self, s: Seq<char>) -> (HeaderView, Option<EncodingError>)
        decreases s.len(),
    {
        if s.len() == 0 {
            (self, None)
        } else {
            match self.write_char(s[0]) {
                Ok(v) => v.write_chars(s.drop_first()),
                Err(e) => (self, Some(e)),
            }
        }
    }

    pub open spec fn mark_fws(self) -> HeaderView {
        HeaderView {
            trace: self.trace.push(TokenView::MarkFWS),
            content_before_fws: self.content_before_fws || self.content_since_fws,
            content_since_fws: false,
            last_fws: self.buffer.len() as int,
            ..self
        }
    }

    /// Starts a new header at the end of the buffer.
    pub open spec fn reinit(self) -> HeaderView {
        HeaderView {
            header_start: self.buffer.len() as int,
            line_start: self.buffer.len() as int,
            last_fws: self.buffer.len() as int,
            skipped_cr: false,
            content_since_fws: false,
            content_before_fws: false,
            trace_start: self.trace.len() as int,
            ..self
        }
    }

    pub open spec fn finish(self) -> HeaderView {
        self.start_new_line().with_token(TokenView::End).reinit()
    }

    pub open spec fn undo_header(self) -> HeaderView {
        HeaderView {
            buffer: self.buffer.subrange(0, self.header_start),
            trace: self.trace.subrange(0, self.trace_start),
            ..self
        }.reinit()
    }

    pub open spec fn has_unfinished_parts(self) -> bool {
        self.buffer.len() != self.header_start
    }
}

impl HeaderView {
    /// Writing `s` after the token `tok`, as the write methods of the
    /// handle do: the state reached and the result.
    pub open spec fn write_with(self, tok: TokenView, s: Seq<char>) -> (HeaderView, Result<(), EncodingError>) {
        let (v, e) = self.with_token(tok).write_chars(s);
        (
            v,
            match e {
                Some(err) => Err(err),
                None => Ok(()),
            },
        )
    }

    /// Marking a place for folding whitespace and writing a space there, as
    /// `write_fws` does (an error of the write is ignored).
    pub open spec fn fws(self) -> HeaderView {
        match self.mark_fws().with_token(TokenView::NowChar).write_char(' ') {
            Ok(v) => v,
            Err(_) => self.mark_fws().with_token(TokenView::NowChar),
        }
    }

    /// Writing one char as `write_char` does: the state reached and the
    /// result.
    pub open spec fn write_one(self, c: char) -> (HeaderView, Result<(), EncodingError>) {
        match self.with_token(TokenView::NowChar).write_char(c) {
            Ok(v) => (v, Ok(())),
            Err(e) => (self.with_token(TokenView::NowChar), Err(e)),
        }
    }
}

/// `u` keeps the buffer of `v` before its header start, and its line
/// start and FWS mark are not before the header start.
pub open spec fn keeps_prefix(u: HeaderView, v: HeaderView) -> bool {
    &&& u.header_start == v.buffer.len()
    &&& u.header_start <= u.buffer.len()
    &&& u.buffer.subrange(0, u.header_start) == v.buffer
    &&& u.header_start <= u.line_start <= u.buffer.len()
    &&& u.header_start <= u.last_fws <= u.buffer.len()
}

proof fn lemma_write_char_keeps_prefix(u: HeaderView, v: HeaderView, c: char)
    requires
        keeps_prefix(u, v),
    ensures
        u.write_char(c) matches Ok(w) ==> keeps_prefix(w, v),
{
    let hs = u.header_start;
    if u.write_char(c) is Ok {
        let w = u.write_char(c)->Ok_0;
        if c == '\n' {
            let n = u.start_new_line();
            if u.line_has_content() {
                assert(n.buffer.subrange(0, hs) =~= u.buffer.subrange(0, hs));
            } else {
                assert(n.buffer.subrange(0, hs) =~= u.buffer.subrange(0, hs));
            }
        } else if c == '\r' {
        } else if u.line_bytes() >= 78 && u.can_break() {
            let b = u.break_line();
            assert(b.buffer.subrange(0, hs) =~= u.buffer.subrange(0, hs));
            assert(w.buffer.subrange(0, hs) =~= b.buffer.subrange(0, hs));
        } else {
            assert(w.buffer.subrange(0, hs) =~= u.buffer.subrange(0, hs));
        }
    }
}

proof fn lemma_write_chars_keeps_prefix(u: HeaderView, v: HeaderView, s: Seq<char>)
    requires
        keeps_prefix(u, v),
    ensures
        keeps_prefix(u.write_chars(s).0, v),
    decreases s.len(),
{
    if s.len() > 0 {
        lemma_write_char_keeps_prefix(u, v, s[0]);
        if u.write_char(s[0]) is Ok {
            lemma_write_chars_keeps_prefix(u.write_char(s[0])->Ok_0, v, s.drop_first());
        }
    }
}

/// Every char of the buffer is ascii, and the line start and the FWS mark
/// lie within it.
pub open spec fn buffer_ascii(v: HeaderView) -> bool {
    &&& 0 <= v.line_start <= v.buffer.len()
    &&& 0 <= v.last_fws <= v.buffer.len()
    &&& forall|j: int| 0 <= j < v.buffer.len() ==> spec_is_ascii(#[trigger] v.buffer[j])
}

/// Writing an ascii char keeps the buffer ascii.
pub proof fn lemma_write_char_ascii(v: HeaderView, c: char)
    requires
        buffer_ascii(v),
        spec_is_ascii(c),
    ensures
        v.write_char(c) matches Ok(w) ==> buffer_ascii(w),
{
    if v.write_char(c) is Ok {
        let w = v.write_char(c)->Ok_0;
        assert(spec_is_ascii('\r') && spec_is_ascii('\n') && spec_is_ascii(' '));
        if c == '\n' {
            let n = v.start_new_line();
            assert forall|j: int| 0 <= j < n.buffer.len() implies spec_is_ascii(#[trigger] n.buffer[j]) by {
                if v.line_has_content() {
                    if j >= v.buffer.len() {
                        assert(n.buffer[j] == '\r' || n.buffer[j] == '\n');
                    } else {
                        assert(n.buffer[j] == v.buffer[j]);
                    }
                } else {
                    assert(n.buffer[j] == v.buffer[j]);
                }
            }
            assert(w.buffer == n.buffer);
        } else if c == '\r' {
        } else if v.line_bytes() >= 78 && v.can_break() {
            let b = v.break_line();
            let f = v.last_fws;
            assert forall|j: int| 0 <= j < b.buffer.len() implies spec_is_ascii(#[trigger] b.buffer[j]) by {
                if j < f {
                    assert(b.buffer[j] == v.buffer[j]);
                } else if j < f + 3 {
                    assert(b.buffer[j] == '\r' || b.buffer[j] == '\n' || b.buffer[j] == ' ');
                } else {
                    assert(b.buffer[j] == v.buffer[j - 3]);
                }
            }
            assert forall|j: int| 0 <= j < w.buffer.len() implies spec_is_ascii(#[trigger] w.buffer[j]) by {
                if j < b.buffer.len() {
                    assert(w.buffer[j] == b.buffer[j]);
                }
            }
        } else {
            assert forall|j: int| 0 <= j < w.buffer.len() implies spec_is_ascii(#[trigger] w.buffer[j]) by {
                if j < v.buffer.len() {
                    assert(w.buffer[j] == v.buffer[j]);
                }
            }
        }
    }
}

/// Writing ascii chars keeps the buffer ascii.
pub proof fn lemma_write_chars_ascii(v: HeaderView, s: Seq<char>)
    requires
        buffer_ascii(v),
        forall|j: int| 0 <= j < s.len() ==> spec_is_ascii(#[trigger] s[j]),
    ensures
        buffer_ascii(v.write_chars(s).0),
    decreases s.len(),
{
    if s.len() > 0 {
        lemma_write_char_ascii(v, s[0]);
        if v.write_char(s[0]) is Ok {
            assert forall|j: int| 0 <= j < s.drop_first().len() implies spec_is_ascii(
                #[trigger] s.drop_first()[j],
            ) by {
                assert(s.drop_first()[j] == s[j + 1]);
            }
            lemma_write_chars_ascii(v.write_char(s[0])->Ok_0, s.drop_first());
        }
    }
}

/// Writing ascii text after a token, one ascii char, or folding
/// whitespace keeps the buffer ascii.
pub proof fn lemma_writes_ascii(v: HeaderView, tok: TokenView, s: Seq<char>, c: char)
    requires
        buffer_ascii(v),
    ensures
        (forall|j: int| 0 <= j < s.len() ==> spec_is_ascii(#[trigger] s[j])) ==> buffer_ascii(
            v.write_with(tok, s).0,
        ),
        spec_is_ascii(c) ==> buffer_ascii(v.write_one(c).0),
        buffer_ascii(v.fws()),
{
    if forall|j: int| 0 <= j < s.len() ==> spec_is_ascii(#[trigger] s[j]) {
        lemma_write_chars_ascii(v.with_token(tok), s);
    }
    if spec_is_ascii(c) {
        lemma_write_char_ascii(v.with_token(TokenView::NowChar), c);
    }
    assert(spec_is_ascii(' '));
    lemma_write_char_ascii(v.mark_fws().with_token(TokenView::NowChar), ' ');
}

/// A write followed by `f` if it did not fail.
pub open spec fn then_write(
    p: (HeaderView, Result<(), EncodingError>),
    f: spec_fn(HeaderView) -> (HeaderView, Result<(), EncodingError>),
) -> (HeaderView, Result<(), EncodingError>) {
    if p.1 is Err {
        p
    } else {
        f(p.0)
    }
}

/// Writing chars never changes the mail type.
pub proof fn lemma_write_chars_keeps_mail_type(v: HeaderView, s: Seq<char>)
    ensures
        v.write_chars(s).0.mail_type == v.mail_type,
    decreases s.len(),
{
    if s.len() > 0 {
        if let Ok(w) = v.write_char(s[0]) {
            lemma_write_chars_keeps_mail_type(w, s.drop_first());
        }
    }
}

/// Undoing a header gives back the buffer as it was before the header
/// was started, whatever was written into it (here: text, as any write
/// does, through `write_chars`).
pub proof fn lemma_undo_restores_buffer(v: HeaderView, t: TokenView, s: Seq<char>)
    ensures
        v.reinit().with_token(t).write_chars(s).0.undo_header().buffer == v.buffer,
        !v.reinit().with_token(t).write_chars(s).0.undo_header().has_unfinished_parts(),
{
    let u = v.reinit().with_token(t);
    assert(u.buffer.subrange(0, u.header_start) =~= v.buffer);
    lemma_write_chars_keeps_prefix(u, v, s);
}

/// Finishing a finished header changes nothing in the buffer.
pub proof fn lemma_finish_twice(v: HeaderView)
    ensures
        v.finish().finish().buffer == v.finish().buffer,
        v.finish().finish().line_start == v.finish().line_start,
{
    let f = v.finish();
    assert(!f.line_has_content());
    assert(f.buffer.subrange(0, f.line_start) =~= f.buffer);
}

/// Undoing right after finishing a header keeps the finished header.
pub proof fn lemma_undo_after_finish(v: HeaderView)
    ensures
        v.finish().undo_header().buffer == v.finish().buffer,
{
    let f = v.finish();
    assert(f.buffer.subrange(0, f.header_start) =~= f.buffer);
}

/// A handle providing methods to write to the underlying buffer, keeping
/// track of newlines, the current line length and places where the line can
/// be broken, so that the soft line length limit (78) and the hard length
/// limit (998) can be kept.
///
/// Any act of writing a header through the handle has to be concluded by
/// either calling `finish` or `undo_header`.
pub struct EncodeHeaderHandle {
    buffer: Vec<char>,
    trace: Vec<Token>,
    mail_type: MailType,
    line_start_idx: usize,
    last_fws_idx: usize,
    skipped_cr: bool,
    content_since_fws: bool,
    content_before_fws: bool,
    header_start_idx: usize,
    trace_start_idx: usize,
    /// bytes of the current line
    line_bytes: usize,
    /// bytes of the current line before the last FWS mark
    fws_line_bytes: usize,
}

impl View for EncodeHeaderHandle {
    type V = HeaderView;

    closed spec fn view(&self) -> HeaderView {
        HeaderView {
            buffer: self.buffer@,
            trace: trace_view(self.trace@),
            mail_type: self.mail_type,
            header_start: self.header_start_idx as int,
            line_start: self.line_start_idx as int,
            last_fws: self.last_fws_idx as int,
            skipped_cr: self.skipped_cr,
            content_since_fws: self.content_since_fws,
            content_before_fws: self.content_before_fws,
            trace_start: self.trace_start_idx as int,
        }
    }
}

impl EncodeHeaderHandle {
    /// the internal state is consistent
    pub closed spec fn wf(&self) -> bool {
        &&& self.header_start_idx <= self.line_start_idx <= self.buffer.len()
        &&& self.header_start_idx <= self.last_fws_idx <= self.buffer.len()
        &&& self.trace_start_idx <= self.trace.len()
        &&& self.line_bytes == utf8_len(
            self.buffer@.subrange(self.line_start_idx as int, self.buffer.len() as int),
        )
        &&& self.last_fws_idx >= self.line_start_idx ==> self.fws_line_bytes == utf8_len(
            self.buffer@.subrange(self.line_start_idx as int, self.last_fws_idx as int),
        )
        &&& self.line_bytes <= 998
        &&& (self.content_before_fws && self.last_fws_idx > self.line_start_idx) ==> self.line_bytes
            < self.fws_line_bytes + 82
    }

    /// The current line of a handle never holds more than 998 bytes
    /// (the hard line length limit).
    pub proof fn lemma_hard_line_limit(&self)
        requires
            self.wf(),
        ensures
            self@.line_bytes() <= 998,
            self@.well_formed(),
    {
    }

    /// A handle writing a new header at the end of `buffer`.
    pub(crate) fn new(mail_type: MailType, buffer: Vec<char>, trace: Vec<Token>) -> (h: Self)
        ensures
            h.wf(),
            h@ == (HeaderView {
                buffer: buffer@,
                trace: trace_view(trace@),
                mail_type: mail_type,
                header_start: 0,
                line_start: 0,
                last_fws: 0,
                skipped_cr: false,
                content_since_fws: false,
                content_before_fws: false,
                trace_start: 0,
            }).reinit(),
    {
        let start: usize = buffer.len();
        let tstart: usize = trace.len();
        proof {
            assert(buffer@.subrange(start as int, start as int) =~= Seq::<char>::empty());
        }
        EncodeHeaderHandle {
            buffer,
            trace,
            mail_type,
            line_start_idx: start,
            last_fws_idx: start,
            skipped_cr: false,
            content_since_fws: false,
            content_before_fws: false,
            header_start_idx: start,
            trace_start_idx: tstart,
            line_bytes: 0,
            fws_line_bytes: 0,
        }
    }

    pub(crate) fn reinit(&mut self)
        requires
            old(self).wf(),
        ensures
            final(self).wf(),
            final(self)@ == old(self)@.reinit(),
    {
                let start: usize = self.buffer.len();
        proof {
            assert(self.buffer@.subrange(start as int, start as int) =~= Seq::<char>::empty());
        }
        self.line_start_idx = start;
        self.last_fws_idx = start;
        self.skipped_cr = false;
        self.content_since_fws = false;
        self.content_before_fws = false;
        self.header_start_idx = start;
        self.trace_start_idx = self.trace.len();
        self.line_bytes = 0;
        self.fws_line_bytes = 0;
    }

    pub(crate) fn push_token(&mut self, t: Token)
        requires
            old(self).wf(),
        ensures
            final(self).wf(),
            final(self)@ == old(self)@.with_token(token_view(t)),
    {
                self.trace.push(t);
        proof {
            assert(trace_view(self.trace@) =~= old(self)@.trace.push(token_view(t)));
        }
    }

    /// the buffer holding everything written so far
    pub(crate) fn take_buffer(self) -> (r: (Vec<char>, Vec<Token>))
        ensures
            r.0@ == self@.buffer,
            trace_view(r.1@) == self@.trace,
    {
        (self.buffer, self.trace)
    }

    pub(crate) fn trace_ref(&self) -> (r: &Vec<Token>)
        requires
            self.wf(),
        ensures
            trace_view(r@) == self@.trace,
    {
        &self.trace
    }

    pub(crate) fn push_blank_line(&mut self)
        requires
            old(self).wf(),
        ensures
            final(self).wf(),
            final(self)@ == (HeaderView {
                buffer: old(self)@.buffer + seq!['\r', '\n'],
                ..old(self)@
            }).with_token(TokenView::BlankLine).reinit(),
    {
        self.buffer.push('\r');
        self.buffer.push('\n');
        self.trace.push(Token::BlankLine);
        let start: usize = self.buffer.len();
        proof {
            assert(self.buffer@.subrange(start as int, start as int) =~= Seq::<char>::empty());
            assert(trace_view(self.trace@) =~= old(self)@.trace.push(TokenView::BlankLine));
            assert(self.buffer@ =~= old(self)@.buffer + seq!['\r', '\n']);
        }
        self.line_start_idx = start;
        self.last_fws_idx = start;
        self.skipped_cr = false;
        self.content_since_fws = false;
        self.content_before_fws = false;
        self.header_start_idx = start;
        self.trace_start_idx = self.trace.len();
        self.line_bytes = 0;
        self.fws_line_bytes = 0;
    }

    /// a part of a header was written and neither `finish` nor `undo_header`
    /// was called since
    pub fn has_unfinished_parts(&self) -> (r: bool)
        requires
            self.wf(),
        ensures
            r == self@.has_unfinished_parts(),
    {
        self.buffer.len() != self.header_start_idx
    }

    pub fn mail_type(&self) -> (r: MailType)
        requires
            self.wf(),
        ensures
            r == self@.mail_type,
    {
        self.mail_type
    }

    pub fn line_has_content(&self) -> (r: bool)
        requires
            self.wf(),
        ensures
            r == self@.line_has_content(),
    {
        self.content_before_fws || self.content_since_fws
    }

    /// the length of the current line in bytes
    pub fn current_line_byte_length(&self) -> (r: usize)
        requires
            self.wf(),
        ensures
            r == self@.line_bytes(),
    {
                self.line_bytes
    }

    /// marks the current position as a place where a soft
    /// line break (i.e. "\r\n ") can be inserted
    pub fn mark_fws_pos(&mut self)
        requires
            old(self).wf(),
        ensures
            final(self).wf(),
            final(self)@ == old(self)@.mark_fws(),
    {
                self.trace.push(Token::MarkFWS);
        self.content_before_fws = self.content_before_fws || self.content_since_fws;
        self.content_since_fws = false;
        self.last_fws_idx = self.buffer.len();
        self.fws_line_bytes = self.line_bytes;
        proof {
            assert(trace_view(self.trace@) =~= old(self)@.trace.push(TokenView::MarkFWS));
        }
    }

    /// records `ch` in the trace
    fn trace_push_char(&mut self, ch: char)
        requires
            old(self).wf(),
        ensures
            final(self).wf(),
            final(self)@ == (HeaderView { trace: push_text(old(self)@.trace, ch), ..old(self)@ }),
    {
                let n: usize = self.trace.len();
        let is_text: bool = n > 0 && matches!(self.trace[n - 1], Token::Text(_));
        if is_text {
            let last = self.trace.pop().unwrap();
            match last {
                Token::Text(s) => {
                    let mut s = s;
                    string_push(&mut s, ch);
                    let ghost s2 = s;
                    self.trace.push(Token::Text(s));
                    proof {
                        assert(trace_view(self.trace@) =~= push_text(old(self)@.trace, ch));
                    }
                },
                other => {
                    self.trace.push(other);
                },
            }
        } else {
            let mut s = String::new();
            string_push(&mut s, ch);
            self.trace.push(Token::Text(s));
            proof {
                assert(trace_view(self.trace@) =~= push_text(old(self)@.trace, ch));
            }
        }
    }

    /// Ends the current line, see `HeaderView::start_new_line`.
    fn start_new_line(&mut self)
        requires
            old(self).wf(),
        ensures
            final(self).wf(),
            final(self)@ == old(self)@.start_new_line(),
    {
                if self.content_before_fws || self.content_since_fws {
            self.trace.push(Token::CRLF);
            self.buffer.push('\r');
            self.buffer.push('\n');
            proof {
                assert(trace_view(self.trace@) =~= old(self)@.trace.push(TokenView::CRLF));
                assert(self.buffer@ =~= old(self)@.buffer + seq!['\r', '\n']);
            }
        } else {
            self.trace.push(Token::TruncateToCRLF);
            self.buffer.truncate(self.line_start_idx);
            proof {
                assert(trace_view(self.trace@) =~= old(self)@.trace.push(
                    TokenView::TruncateToCRLF,
                ));
            }
        }
        let len: usize = self.buffer.len();
        proof {
            assert(self.buffer@.subrange(len as int, len as int) =~= Seq::<char>::empty());
        }
        self.line_start_idx = len;
        self.content_since_fws = false;
        self.content_before_fws = false;
        self.last_fws_idx = len;
        self.line_bytes = 0;
        self.fws_line_bytes = 0;
    }

    /// Inserts `"\r\n "` at the last FWS mark if that is possible.
    fn break_line_on_fws(&mut self) -> (r: bool)
        requires
            old(self).wf(),
        ensures
            final(self).wf(),
            r == old(self)@.can_break(),
            r ==> final(self)@ == old(self)@.break_line(),
            !r ==> final(self)@ == old(self)@,
            r ==> final(self)@.line_bytes() < 83,
    {
                if self.content_before_fws && self.last_fws_idx > self.line_start_idx {
            let f: usize = self.last_fws_idx;
            let ghost old_buf = self.buffer@;
            let ghost ls = self.line_start_idx as int;
            self.buffer.insert(f, ' ');
            self.buffer.insert(f, '\n');
            self.buffer.insert(f, '\r');
            proof {
                let len = old_buf.len() as int;
                assert(self.buffer@ =~= old_buf.subrange(0, f as int) + seq!['\r', '\n', ' ']
                    + old_buf.subrange(f as int, len));
                assert(self.buffer@.subrange(f + 2, self.buffer.len() as int) =~= seq![' ']
                    + old_buf.subrange(f as int, len));
                lemma_utf8_len_concat(seq![' '], old_buf.subrange(f as int, len));
                lemma_utf8_len_single(' ');
                assert(old_buf.subrange(ls, len) =~= old_buf.subrange(ls, f as int)
                    + old_buf.subrange(f as int, len));
                lemma_utf8_len_concat(old_buf.subrange(ls, f as int), old_buf.subrange(f as int, len));
                lemma_utf8_len_positive(old_buf.subrange(ls, f as int));
            }
            self.line_start_idx = f + 2;
            self.content_before_fws = false;
            self.line_bytes = 1 + (self.line_bytes - self.fws_line_bytes);
            true
        } else {
            false
        }
    }

    /// Pushes `ch` into the buffer.
    fn push_char(&mut self, ch: char)
        requires
            old(self).wf(),
            old(self).line_bytes + char_len(ch) <= 998,
            (old(self).content_before_fws && old(self).last_fws_idx > old(self).line_start_idx)
                ==> old(self).line_bytes < 78,
        ensures
            final(self).wf(),
            final(self)@ == old(self)@.push_char(ch),
    {
                let n: usize = char_utf8_len(ch);
        let ghost old_buf = self.buffer@;
        self.buffer.push(ch);
        proof {
            let ls = self.line_start_idx as int;
            let len = old_buf.len() as int;
            assert(self.buffer@.subrange(ls, len + 1) =~= old_buf.subrange(ls, len) + seq![ch]);
            lemma_utf8_len_concat(old_buf.subrange(ls, len), seq![ch]);
            lemma_utf8_len_single(ch);
            if self.last_fws_idx >= self.line_start_idx {
                assert(self.buffer@.subrange(ls, self.last_fws_idx as int) =~= old_buf.subrange(
                    ls,
                    self.last_fws_idx as int,
                ));
            }
        }
        self.line_bytes = self.line_bytes + n;
        if ch != ' ' && ch != '\t' {
            self.content_since_fws = true;
        }
        self.trace_push_char(ch);
    }

    fn internal_write_char(&mut self, ch: char) -> (r: Result<(), EncodingError>)
        requires
            old(self).wf(),
        ensures
            final(self).wf(),
            match old(self)@.write_char(ch) {
                Ok(v) => r is Ok && final(self)@ == v,
                Err(e) => r == Err::<(), EncodingError>(e) && final(self)@ == old(self)@,
            },
    {
                if ch == '\n' {
            if self.skipped_cr {
                self.start_new_line();
            } else {
                return Err(EncodingError::OrphanLf);
            }
            self.skipped_cr = false;
            return Ok(());
        } else {
            if self.skipped_cr {
                return Err(EncodingError::OrphanCr);
            }
            if ch == '\r' {
                self.skipped_cr = true;
                return Ok(());
            }
        }
        let n: usize = char_utf8_len(ch);
        if self.line_bytes >= LINE_LEN_SOFT_LIMIT {
            if !self.break_line_on_fws() {
                if self.line_bytes + n > LINE_LEN_HARD_LIMIT {
                    return Err(EncodingError::HardLineLengthLimit);
                }
            }
        }
        self.push_char(ch);
        Ok(())
    }

    /// Writes the chars of `s` one after the other, see `HeaderView::write_chars`.
    fn internal_write_str(&mut self, s: &str) -> (r: Result<(), EncodingError>)
        requires
            old(self).wf(),
        ensures
            final(self).wf(),
            old(self)@.write_chars(s@).1 is None ==> r is Ok,
            old(self)@.write_chars(s@).1 matches Some(e) ==> r == Err::<(), EncodingError>(e),
            final(self)@ == old(self)@.write_chars(s@).0,
    {
        let ghost v0 = self@;
        proof {
            assert(s@.skip(0) =~= s@);
        }
        for ch in it: s.chars()
            invariant
                it.seq() == s@,
                self.wf(),
                v0 == old(self)@,
                v0.write_chars(s@) == self@.write_chars(s@.skip(it.index() as int)),
        {
            let ghost idx = it.index();
            proof {
                assert(s@.skip(idx as int).drop_first() =~= s@.skip(idx + 1));
                assert(s@.skip(idx as int)[0] == ch);
            }
            let ghost before = self@;
            let r = self.internal_write_char(ch);
            if let Err(e) = r {
                proof {
                    assert(s@.skip(idx as int).len() > 0);
                    assert(before.write_char(ch) == Err::<HeaderView, EncodingError>(e));
                    assert(before.write_chars(s@.skip(idx as int)) == (before, Some(e)));
                }
                return Err(e);
            }
        }
        proof {
            assert(s@.skip(s@.len() as int) =~= Seq::<char>::empty());
        }
        Ok(())
    }

    /// writes an ascii char to the underlying buffer
    ///
    /// # Error
    /// - fails if the hard line length limit is breached and the
    ///   line can not be broken with soft line breaks
    /// - buffer would contain an orphan '\r' or '\n' after the write
    pub fn write_char(&mut self, ch: char) -> (r: Result<(), EncodingError>)
        requires
            old(self).wf(),
            (ch as u32) < 128,
        ensures
            final(self).wf(),
            match old(self)@.with_token(TokenView::NowChar).write_char(ch) {
                Ok(v) => r is Ok && final(self)@ == v,
                Err(e) => r == Err::<(), EncodingError>(e) && final(self)@ == old(self)@.with_token(
                    TokenView::NowChar,
                ),
            },
    {
        self.push_token(Token::NowChar);
        self.internal_write_char(ch)
    }

    /// writes an ascii str to the underlying buffer
    ///
    /// Note that in case of an error part of the content might already
    /// have been written to the buffer, therefore it is recommended
    /// to call `undo_header` after an error.
    pub fn write_str(&mut self, s: &str) -> (r: Result<(), EncodingError>)
        requires
            old(self).wf(),
            s.is_ascii(),
        ensures
            final(self).wf(),
            ({
                let (v, e) = old(self)@.with_token(TokenView::NowStr).write_chars(s@);
                &&& final(self)@ == v
                &&& e is None ==> r is Ok
                &&& e matches Some(err) ==> r == Err::<(), EncodingError>(err)
            }),
    {
        self.push_token(Token::NowStr);
        self.internal_write_str(s)
    }

    /// writes a utf8 str into a buffer for an internationalized mail
    ///
    /// # Error
    /// - fails if the mail type is not `Internationalized`
    /// - fails like `write_str`
    pub fn write_utf8(&mut self, s: &str) -> (r: Result<(), EncodingError>)
        requires
            old(self).wf(),
        ensures
            final(self).wf(),
            old(self)@.mail_type != MailType::Internationalized ==> r == Err::<(), EncodingError>(
                EncodingError::Utf8InAsciiMail,
            ) && final(self)@ == old(self)@,
            old(self)@.mail_type == MailType::Internationalized ==> ({
                let (v, e) = old(self)@.with_token(TokenView::NowUtf8).write_chars(s@);
                &&& final(self)@ == v
                &&& e is None ==> r is Ok
                &&& e matches Some(err) ==> r == Err::<(), EncodingError>(err)
            }),
    {
        if self.mail_type().is_internationalized() {
            self.push_token(Token::NowUtf8);
            self.internal_write_str(s)
        } else {
            Err(EncodingError::Utf8InAsciiMail)
        }
    }

    /// Writes a str if it is atext given the mail type.
    ///
    /// # Error
    /// - if the text is not valid atext (wrt. the mail type)
    /// - fails like `write_str`
    pub fn try_write_atext(&mut self, s: &str) -> (r: Result<(), EncodingError>)
        requires
            old(self).wf(),
        ensures
            final(self).wf(),
            !(forall|i: int| 0 <= i < s@.len() ==> #[trigger] spec_is_atext(s@[i], old(self)@.mail_type))
                ==> r == Err::<(), EncodingError>(EncodingError::NotAtext) && final(self)@ == old(self)@,
            (forall|i: int| 0 <= i < s@.len() ==> #[trigger] spec_is_atext(s@[i], old(self)@.mail_type))
                ==> ({
                let (v, e) = old(self)@.with_token(TokenView::NowAText).write_chars(s@);
                &&& final(self)@ == v
                &&& e is None ==> r is Ok
                &&& e matches Some(err) ==> r == Err::<(), EncodingError>(err)
            }),
    {
        let mt = self.mail_type();
        let mut all: bool = true;
        for ch in it: s.chars()
            invariant
                it.seq() == s@,
                all == (forall|i: int| 0 <= i < it.index() ==> #[trigger] spec_is_atext(s@[i], mt)),
        {
            if !is_atext(ch, mt) {
                all = false;
            }
        }
        if all {
            self.push_token(Token::NowAText);
            self.internal_write_str(s)
        } else {
            Err(EncodingError::NotAtext)
        }
    }

    /// writes a string without checking if it is compatible with the mail type
    pub fn write_str_unchecked(&mut self, s: &str) -> (r: Result<(), EncodingError>)
        requires
            old(self).wf(),
        ensures
            final(self).wf(),
            ({
                let (v, e) = old(self)@.with_token(TokenView::NowUnchecked).write_chars(s@);
                &&& final(self)@ == v
                &&& e is None ==> r is Ok
                &&& e matches Some(err) ==> r == Err::<(), EncodingError>(err)
            }),
    {
        self.push_token(Token::NowUnchecked);
        self.internal_write_str(s)
    }

    /// finishes the writing of a header
    ///
    /// It makes sure the header ends in "\r\n" (using an orphan '\r' for
    /// it) or, if the last line only holds whitespace, truncates that line.
    pub fn finish(&mut self)
        requires
            old(self).wf(),
        ensures
            final(self).wf(),
            final(self)@ == old(self)@.finish(),
    {
        self.start_new_line();
        self.push_token(Token::End);
        self.reinit();
    }

    /// undoes all writes to the buffer (and the trace) since the last
    /// `finish` or `undo_header` or the creation of this handle
    pub fn undo_header(&mut self)
        requires
            old(self).wf(),
        ensures
            final(self).wf(),
            final(self)@ == old(self)@.undo_header(),
    {
                self.buffer.truncate(self.header_start_idx);
        self.trace.truncate(self.trace_start_idx);
        proof {
            assert(trace_view(self.trace@) =~= old(self)@.trace.subrange(
                0,
                old(self)@.trace_start,
            ));
            assert(self.buffer@ =~= old(self)@.buffer.subrange(0, old(self)@.header_start));
        }
        let start: usize = self.buffer.len();
        proof {
            assert(self.buffer@.subrange(start as int, start as int) =~= Seq::<char>::empty());
        }
        self.line_start_idx = start;
        self.last_fws_idx = start;
        self.skipped_cr = false;
        self.content_since_fws = false;
        self.content_before_fws = false;
        self.header_start_idx = start;
        self.trace_start_idx = self.trace.len();
        self.line_bytes = 0;
        self.fws_line_bytes = 0;
    }

    /// calls `mark_fws_pos` and then writes a space
    pub fn write_fws(&mut self)
        requires
            old(self).wf(),
        ensures
            final(self).wf(),
            final(self)@ == match old(self)@.mark_fws().with_token(TokenView::NowChar).write_char(' ') {
                Ok(v) => v,
                Err(_) => old(self)@.mark_fws().with_token(TokenView::NowChar),
            },
    {
        self.mark_fws_pos();
        let _ = self.write_char(' ');
    }
}

} // verus!

verus! {

/// Trait representing the buffer of a mime body payload
/// (e.g. a transfer encoded image or text).
pub trait BodyBuffer {
    /// the bytes of the body
    spec fn body_bytes(&self) -> Seq<u8>;

    /// whether the buffer can provide its bytes
    spec fn data_available(&self) -> bool;

    /// Called to access the bytes in the buffer: `func` is called on them
    /// and its result returned.
    ///
    /// The implementor can return an error if for some reason no
    /// data is available.
    fn with_slice<FN, R>(&self, func: FN) -> (r: Result<R, EncodingError>) where
        FN: FnOnce(&[u8]) -> Result<R, EncodingError>,
        requires
            forall|s: &[u8]| s@ == self.body_bytes() ==> #[trigger] call_requires(func, (s,)),
        ensures
            r is Ok ==> exists|s: &[u8]| s@ == self.body_bytes() && #[trigger] call_ensures(func, (s,), r),
            self.data_available() ==> exists|s: &[u8]|
                s@ == self.body_bytes() && #[trigger] call_ensures(func, (s,), r),
    ;
}

/// A section of an encoded mail: either a header buffer or a body payload.
#[derive(Debug, Clone, PartialEq, Eq, Hash)]
pub enum Section<R> {
    Header(String),
    MIMEBody(R),
}

/// `Section` with the header as a sequence of chars.
pub ghost enum SectionView<R> {
    Header(Seq<char>),
    MIMEBody(R),
}

pub open spec fn section_view<R>(s: Section<R>) -> SectionView<R> {
    match s {
        Section::Header(h) => SectionView::Header(h@),
        Section::MIMEBody(b) => SectionView::MIMEBody(b),
    }
}

impl<R> Section<R> {
    /// # Panics
    /// if it is not a `Section::Header` (excluded by the precondition)
    pub fn unwrap_header(self) -> (r: String)
        requires
            self is Header,
        ensures
            r == self->Header_0,
    {
        match self {
            Section::Header(res) => res,
            Section::MIMEBody(_) => vstd::pervasive::unreached(),
        }
    }

    /// # Panics
    /// if it is not a `Section::MIMEBody` (excluded by the precondition)
    pub fn unwrap_body(self) -> (r: R)
        requires
            self is MIMEBody,
        ensures
            r == self->MIMEBody_0,
    {
        match self {
            Section::MIMEBody(res) => res,
            Section::Header(_) => vstd::pervasive::unreached(),
        }
    }
}

/// Encoder for a mail providing a buffer for encodable parts
///
/// The buffer is a sequence of sections which are either string
/// buffers used to encode headers or buffers of type `B: BodyBuffer`
/// which represent a body payload.
pub struct Encoder<B> {
    /// the sections before the last header section
    sections: Vec<Section<B>>,
    /// the buffer of the last header section (and the trace)
    header: EncodeHeaderHandle,
    /// the last section is the header section of `header`
    header_open: bool,
}

impl<B> Encoder<B> {
    pub closed spec fn wf(&self) -> bool {
        self.header.wf()
    }

    /// the sections before the last header section
    pub closed spec fn done(&self) -> Seq<SectionView<B>> {
        self.sections@.map_values(|s: Section<B>| section_view(s))
    }

    pub closed spec fn is_open(&self) -> bool {
        self.header_open
    }

    /// the handle writing to the last header section
    pub closed spec fn handle(&self) -> EncodeHeaderHandle {
        self.header
    }

    /// all sections of the encoder
    pub open spec fn sections(&self) -> Seq<SectionView<B>> {
        if self.is_open() {
            self.done().push(SectionView::Header(self.handle()@.buffer))
        } else {
            self.done()
        }
    }

    /// the recorded tokens
    pub open spec fn trace_tokens(&self) -> Seq<TokenView> {
        self.handle()@.trace
    }

    pub open spec fn spec_mail_type(&self) -> MailType {
        self.handle()@.mail_type
    }

    pub fn new(mail_type: MailType) -> (e: Self)
        ensures
            e.wf(),
            e.sections() == Seq::<SectionView<B>>::empty(),
            e.trace_tokens() == Seq::<TokenView>::empty(),
            e.spec_mail_type() == mail_type,
    {
        let e = Encoder {
            sections: Vec::new(),
            header: EncodeHeaderHandle::new(mail_type, Vec::new(), Vec::new()),
            header_open: false,
        };
        proof {
            assert(e.done() =~= Seq::<SectionView<B>>::empty());
        }
        e
    }

    pub fn mail_type(&self) -> (r: MailType)
        requires
            self.wf(),
        ensures
            r == self.spec_mail_type(),
    {
        self.header.mail_type()
    }

    /// the recorded tokens
    pub fn trace(&self) -> (r: &Vec<Token>)
        requires
            self.wf(),
        ensures
            trace_view(r@) == self.trace_tokens(),
    {
        self.header.trace_ref()
    }

    /// makes the last section a header section (pushing a `NewSection`
    /// token if a new one is started)
    fn open_header(&mut self)
        requires
            old(self).wf(),
        ensures
            final(self).wf(),
            final(self).is_open(),
            final(self).done() == old(self).done(),
            old(self).is_open() ==> final(self).handle()@ == old(self).handle()@,
            !old(self).is_open() ==> final(self).handle()@ == (HeaderView {
                buffer: Seq::empty(),
                trace: old(self).trace_tokens(),
                ..old(self).handle()@
            }).reinit().with_token(TokenView::NewSection),
    {
        if !self.header_open {
            let mt = self.header.mail_type();
            let mut old_h = EncodeHeaderHandle::new(mt, Vec::new(), Vec::new());
            std::mem::swap(&mut old_h, &mut self.header);
            let (_buf, trace) = old_h.take_buffer();
            let mut fresh = EncodeHeaderHandle::new(mt, Vec::new(), trace);
            fresh.push_token(Token::NewSection);
            self.header = fresh;
            self.header_open = true;
        }
    }

    /// returns the handle writing into the current header section
    /// (a new one is started if the last section is a body)
    pub fn encode_header_handle(&mut self) -> (h: &mut EncodeHeaderHandle)
        requires
            old(self).wf(),
        ensures
            h.wf(),
            h@ == (if old(self).is_open() {
                old(self).handle()@
            } else {
                (HeaderView {
                    buffer: Seq::empty(),
                    trace: old(self).trace_tokens(),
                    ..old(self).handle()@
                }).reinit().with_token(TokenView::NewSection)
            }).reinit(),
            final(self).is_open(),
            final(self).done() == old(self).done(),
            final(self).handle() == *final(h),
    {
        self.open_header();
        self.header.reinit();
        &mut self.header
    }

    /// adds a blank line (`"\r\n"`) separating a header from a body
    pub fn add_blank_line(&mut self)
        requires
            old(self).wf(),
        ensures
            final(self).wf(),
            final(self).is_open(),
            final(self).done() == old(self).done(),
            ({
                let opened = if old(self).is_open() {
                    old(self).handle()@
                } else {
                    (HeaderView {
                        buffer: Seq::empty(),
                        trace: old(self).trace_tokens(),
                        ..old(self).handle()@
                    }).reinit().with_token(TokenView::NewSection)
                };
                final(self).handle()@ == (HeaderView {
                    buffer: opened.buffer + seq!['\r', '\n'],
                    ..opened
                }).with_token(TokenView::BlankLine).reinit()
            }),
    {
        self.open_header();
        self.header.push_blank_line();
    }

    /// adds a body payload buffer to the encoder without validating it
    pub fn write_body(&mut self, body: B)
        requires
            old(self).wf(),
        ensures
            final(self).wf(),
            !final(self).is_open(),
            final(self).sections() == old(self).sections().push(SectionView::MIMEBody(body)),
            final(self).trace_tokens() == old(self).trace_tokens(),
            final(self).spec_mail_type() == old(self).spec_mail_type(),
    {
        self.close_header();
        self.sections.push(Section::MIMEBody(body));
        proof {
            assert(self.done() =~= old(self).sections().push(SectionView::MIMEBody(body)));
        }
    }

    /// moves the open header section (if any) into the closed sections
    fn close_header(&mut self)
        requires
            old(self).wf(),
        ensures
            final(self).wf(),
            !final(self).is_open(),
            final(self).done() == old(self).sections(),
            final(self).trace_tokens() == old(self).trace_tokens(),
            final(self).spec_mail_type() == old(self).spec_mail_type(),
    {
        if self.header_open {
            let mt = self.header.mail_type();
            let mut old_h = EncodeHeaderHandle::new(mt, Vec::new(), Vec::new());
            std::mem::swap(&mut old_h, &mut self.header);
            let (buf, trace) = old_h.take_buffer();
            self.header = EncodeHeaderHandle::new(mt, Vec::new(), trace);
            let s = crate::utils::string_from_chars(buf.as_slice());
            self.sections.push(Section::Header(s));
            self.header_open = false;
            proof {
                assert(self.done() =~= old(self).sections());
            }
        }
    }

    /// all sections, headers and bodies, in the order they were written
    pub fn into_sections(self) -> (r: Vec<Section<B>>)
        requires
            self.wf(),
        ensures
            r@.map_values(|s: Section<B>| section_view(s)) == self.sections(),
    {
        let mut e = self;
        e.close_header();
        e.sections
    }
}

impl<B: BodyBuffer> Encoder<B> {
    /// The whole mail as a string: the headers as they are, each body
    /// read as UTF-8 (invalid bytes replaced) and ended by `"\r\n"` if it
    /// does not end with one.
    ///
    /// Fails if, and only if, a body buffer can not provide its bytes.
    pub fn into_string_lossy(self) -> (r: Result<String, EncodingError>)
        requires
            self.wf(),
        ensures
            r matches Ok(s) ==> s@ == lossy_text(self.sections()),
            bodies_available(self.sections()) ==> r is Ok,
            r is Err ==> !bodies_available(self.sections()),
    {
        let ghost secs = self.sections();
        let sections = self.into_sections();
        let mut out: Vec<char> = Vec::new();
        let mut i: usize = 0;
        while i < sections.len()
            invariant
                i <= sections.len(),
                sections@.map_values(|s: Section<B>| section_view(s)) == secs,
                secs == self.sections(),
                out@ == lossy_text(secs.take(i as int)),
            decreases sections.len() - i,
        {
            proof {
                assert(secs.take(i + 1).drop_last() =~= secs.take(i as int));
                assert(secs.take(i + 1).last() == section_view(sections@[i as int]));
            }
            let ghost before = out@;
            match &sections[i] {
                Section::Header(string) => {
                    let chars = crate::utils::str_chars(string.as_str());
                    append_chars(&mut out, &chars);
                },
                Section::MIMEBody(body) => {
                    let res = body.with_slice(lossy_body_text);
                    let text = match res {
                        Ok(t) => t,
                        Err(e) => {
                            proof {
                                assert(secs[i as int] == section_view(sections@[i as int]));
                                assert(!body.data_available());
                                assert(!bodies_available(secs));
                            }
                            return Err(e);
                        },
                    };
                    let chars = crate::utils::str_chars(text.as_str());
                    append_chars(&mut out, &chars);
                    let n = chars.len();
                    if !(n >= 2 && chars[n - 2] == '\r' && chars[n - 1] == '\n') {
                        out.push('\r');
                        out.push('\n');
                    }
                    proof {
                        assert(out@ =~= before + body_text(text@));
                    }
                },
            }
            i = i + 1;
        }
        proof {
            assert(secs.take(i as int) =~= secs);
        }
        Ok(crate::utils::string_from_chars(out.as_slice()))
    }
}

/// Every body buffer among the sections can provide its bytes.
pub open spec fn bodies_available<B: BodyBuffer>(secs: Seq<SectionView<B>>) -> bool {
    forall|i: int|
        0 <= i < secs.len() ==> (#[trigger] secs[i] matches SectionView::MIMEBody(b) ==> b.data_available())
}

/// What a body gives in the text of a mail: its text, ended by
/// `"\r\n"` if it does not end with one.
pub open spec fn body_text(t: Seq<char>) -> Seq<char> {
    if t.len() >= 2 && t[t.len() - 2] == '\r' && t[t.len() - 1] == '\n' {
        t
    } else {
        t + seq!['\r', '\n']
    }
}

/// The text of the sections of a mail: headers as they are, bodies read
/// as UTF-8 with invalid bytes replaced.
pub open spec fn lossy_text<B: BodyBuffer>(secs: Seq<SectionView<B>>) -> Seq<char>
    decreases secs.len(),
{
    if secs.len() == 0 {
        Seq::empty()
    } else {
        lossy_text(secs.drop_last()) + match secs.last() {
            SectionView::Header(h) => h,
            SectionView::MIMEBody(b) => body_text(utf8_lossy(b.body_bytes())),
        }
    }
}

/// What `String::from_utf8_lossy` makes of bytes: the decoded text, each
/// invalid sequence replaced by U+FFFD.
pub uninterp spec fn utf8_lossy(bytes: Seq<u8>) -> Seq<char>;

/// Calls std's `String::from_utf8_lossy`.
///
/// Trusted: the result is `utf8_lossy` of the bytes, and for valid UTF-8
/// the decoded text (std documents that valid UTF-8 is returned as it is).
#[verifier::external_body]
fn string_from_utf8_lossy(bytes: &[u8]) -> (r: String)
    ensures
        r@ == utf8_lossy(bytes@),
        vstd::utf8::valid_utf8(bytes@) ==> r@ == vstd::utf8::decode_utf8(bytes@),
{
    String::from_utf8_lossy(bytes).into_owned()
}

/// The bytes of a body read as UTF-8, invalid bytes replaced.
fn lossy_body_text(slice: &[u8]) -> (r: Result<String, EncodingError>)
    ensures
        r matches Ok(t) && t@ == utf8_lossy(slice@),
{
    Ok(string_from_utf8_lossy(slice))
}

/// Appends `chars` to `out`.
fn append_chars(out: &mut Vec<char>, chars: &Vec<char>)
    ensures
        final(out)@ == old(out)@ + chars@,
{
    let mut j: usize = 0;
    while j < chars.len()
        invariant
            j <= chars.len(),
            out@ == old(out)@ + chars@.take(j as int),
        decreases chars.len() - j,
    {
        out.push(chars[j]);
        proof {
            assert(old(out)@ + chars@.take(j + 1) =~= (old(out)@ + chars@.take(j as int)).push(
                chars@[j as int],
            ));
        }
        j = j + 1;
    }
    proof {
        assert(chars@.take(j as int) =~= chars@);
    }
}

/// Wraps a closure which encodes something into a header.
pub struct EncodableClosure<F>(pub F);

impl<F: Fn(&mut EncodeHeaderHandle) -> Result<(), EncodingError>> EncodableClosure<F> {
    /// Calls the closure on `handle`; what it does is what the closure does.
    pub fn encode(&self, handle: &mut EncodeHeaderHandle) -> (r: Result<(), EncodingError>)
        requires
            forall|h: &mut EncodeHeaderHandle| #[trigger] call_requires(self.0, (h,)),
        ensures
            exists|h: &mut EncodeHeaderHandle|
                mut_ref_current(h) == *old(handle) && mut_ref_future(h) == *final(handle)
                    && #[trigger] call_ensures(self.0, (h,), r),
    {
        (self.0)(handle)
    }
}

/// A `BodyBuffer` implementation based on a `Vec<u8>`.
#[derive(Debug, Clone, PartialEq, Eq)]
pub struct VecBodyBuf(pub Vec<u8>);

impl BodyBuffer for VecBodyBuf {
    open spec fn body_bytes(&self) -> Seq<u8> {
        self.0@
    }

    open spec fn data_available(&self) -> bool {
        true
    }

    fn with_slice<FN, R>(&self, func: FN) -> (r: Result<R, EncodingError>) where
        FN: FnOnce(&[u8]) -> Result<R, EncodingError>,
    {
        let s = self.0.as_slice();
        let r = func(s);
        proof {
            assert(call_ensures(func, (s,), r));
        }
        r
    }
}

/// Appends the pending text (if any) as a `Text` token.
pub open spec fn flush_text(out: Seq<TokenView>, pending: Option<Seq<char>>) -> Seq<TokenView> {
    match pending {
        Some(p) => out.push(TokenView::Text(p)),
        None => out,
    }
}

/// The simplified tokens of `ts` so far and the text not yet emitted:
/// `Now*` tokens are dropped and adjacent `Text` tokens are joined.
pub open spec fn simplify_state(ts: Seq<TokenView>) -> (Seq<TokenView>, Option<Seq<char>>)
    decreases ts.len(),
{
    if ts.len() == 0 {
        (Seq::empty(), None)
    } else {
        let (out, pending) = simplify_state(ts.drop_last());
        match ts.last() {
            TokenView::NowChar | TokenView::NowStr | TokenView::NowAText | TokenView::NowUtf8
            | TokenView::NowUnchecked => (out, pending),
            TokenView::Text(t) => (
                out,
                Some(
                    match pending {
                        Some(p) => p + t,
                        None => t,
                    },
                ),
            ),
            e => (flush_text(out, pending).push(e), None),
        }
    }
}

/// The tokens `ts` without the `Now*` tokens and with adjacent `Text`
/// tokens joined.
pub open spec fn simplify_tokens(ts: Seq<TokenView>) -> Seq<TokenView> {
    let (out, pending) = simplify_state(ts);
    flush_text(out, pending)
}

/// Drops the `Now*` tokens of a trace and joins adjacent `Text` tokens,
/// which makes traces easy to compare.
pub fn simplify_trace_tokens(inp: Vec<Token>) -> (r: Vec<Token>)
    ensures
        trace_view(r@) == simplify_tokens(trace_view(inp@)),
{
    let ghost ts = trace_view(inp@);
    let mut out: Vec<Token> = Vec::new();
    let mut textbf: Vec<char> = Vec::new();
    let mut had_text = false;
    proof {
        assert(ts.take(0) =~= Seq::<TokenView>::empty());
        assert(trace_view(out@) =~= Seq::<TokenView>::empty());
    }
    for token in iter: inp.into_iter()
        invariant
            iter.seq() == inp@,
            ts == trace_view(inp@),
            iter.index() <= ts.len(),
            (trace_view(out@), if had_text {
                Some(textbf@)
            } else {
                None
            }) == simplify_state(ts.take(iter.index() as int)),
    {
        let ghost i = iter.index();
        proof {
            assert(i < ts.len());
            assert(ts.take(i + 1).drop_last() =~= ts.take(i as int));
            assert(ts.take(i + 1).last() == token_view(token));
        }
        let ghost out_before = trace_view(out@);
        match token {
            Token::NowChar | Token::NowStr | Token::NowAText | Token::NowUtf8 | Token::NowUnchecked => {},
            Token::Text(s) => {
                let chars = crate::utils::str_chars(s.as_str());
                let ghost before = textbf@;
                let ghost had = had_text;
                if !had_text {
                    textbf = Vec::new();
                }
                let ghost start = textbf@;
                let mut j: usize = 0;
                while j < chars.len()
                    invariant
                        j <= chars.len(),
                        textbf@ == start + chars@.take(j as int),
                    decreases chars.len() - j,
                {
                    textbf.push(chars[j]);
                    proof {
                        assert(start + chars@.take(j + 1) =~= (start + chars@.take(j as int)).push(chars@[j as int]));
                    }
                    j = j + 1;
                }
                proof {
                    assert(chars@.take(j as int) =~= chars@);
                    if !had {
                        assert(start =~= Seq::<char>::empty());
                        assert(textbf@ =~= s@);
                    }
                }
                had_text = true;
            },
            e => {
                if had_text {
                    let text = crate::utils::string_from_chars(textbf.as_slice());
                    out.push(Token::Text(text));
                    textbf = Vec::new();
                    had_text = false;
                }
                let ghost flushed = trace_view(out@);
                out.push(e);
                proof {
                    assert(trace_view(out@) =~= flushed.push(token_view(e)));
                }
            },
        }
    }
    proof {
        assert(ts.take(ts.len() as int) =~= ts);
    }
    if had_text {
        let text = crate::utils::string_from_chars(textbf.as_slice());
        let ghost before = trace_view(out@);
        out.push(Token::Text(text));
        proof {
            assert(trace_view(out@) =~= before.push(TokenView::Text(textbf@)));
        }
    }
    out
}

} // verus!
