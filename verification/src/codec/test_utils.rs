//! A mail encoder which records what was written as a sequence of states,
//! for checking encodings in tests.
#![allow(non_snake_case)]
#![allow(non_upper_case_globals)]
use vstd::prelude::*;

use crate::error::EncodingError;
use crate::grammar::{MailType, is_atext, spec_is_atext, spec_is_ascii};
use crate::utils::{char_utf8_len, str_chars, string_from_chars, utf8_len};

verus! {

/// What was written: a finished line, a part of a line, (optional)
/// folding whitespace or a body.
#[derive(Debug, Hash, Eq, PartialEq, Clone)]
pub enum State {
    Line(String),
    LinePart(String),
    FWS,
    OptFWS,
    Body(String),
}

/// `State` with its text as a sequence of chars.
pub ghost enum StateView {
    Line(Seq<char>),
    LinePart(Seq<char>),
    FWS,
    OptFWS,
    Body(Seq<char>),
}

pub open spec fn state_view(s: State) -> StateView {
    match s {
        State::Line(t) => StateView::Line(t@),
        State::LinePart(t) => StateView::LinePart(t@),
        State::FWS => StateView::FWS,
        State::OptFWS => StateView::OptFWS,
        State::Body(t) => StateView::Body(t@),
    }
}

pub open spec fn states_view(s: Seq<State>) -> Seq<StateView> {
    s.map_values(|x: State| state_view(x))
}

/// A finished line.
pub fn Line(data: &str) -> (r: State)
    ensures
        state_view(r) == StateView::Line(data@),
{
    State::Line(string_from_chars(str_chars(data).as_slice()))
}

/// A part of a line.
pub fn LinePart(data: &str) -> (r: State)
    ensures
        state_view(r) == StateView::LinePart(data@),
{
    State::LinePart(string_from_chars(str_chars(data).as_slice()))
}

/// A body.
pub fn Body(data: &str) -> (r: State)
    ensures
        state_view(r) == StateView::Body(data@),
{
    State::Body(string_from_chars(str_chars(data).as_slice()))
}

pub const FWS: State = State::FWS;

pub const OptFWS: State = State::OptFWS;

/// The bytes of a body read as chars of an ascii mail.
pub open spec fn ascii_body(body: Seq<u8>) -> Seq<char> {
    body.map_values(|b: u8| b as char)
}

/// Reads `bytes` as UTF-8 (std's `str::from_utf8`).
///
/// Trusted: the contract states that the result is present iff the bytes
/// are valid UTF-8, and is then the decoded chars, as std documents.
#[verifier::external_body]
fn utf8_from_bytes(bytes: &[u8]) -> (r: Option<String>)
    ensures
        r is Some <==> vstd::utf8::valid_utf8(bytes@),
        r matches Some(s) ==> s@ == vstd::utf8::decode_utf8(bytes@),
{
    match std::str::from_utf8(bytes) {
        Ok(s) => Some(s.to_owned()),
        Err(_) => None,
    }
}

/// A mail encoder recording what was written.
#[derive(Debug, Hash, Eq, PartialEq, Clone)]
pub struct TestMailEncoder {
    mail_type: MailType,
    current_line: Vec<char>,
    state_seq: Vec<State>,
}

impl TestMailEncoder {
    /// the finished states
    pub closed spec fn states(&self) -> Seq<StateView> {
        states_view(self.state_seq@)
    }

    /// the text of the current line
    pub closed spec fn line(&self) -> Seq<char> {
        self.current_line@
    }

    pub closed spec fn spec_mail_type(&self) -> MailType {
        self.mail_type
    }

    /// The states after the current line is ended as a line part.
    pub open spec fn flushed(&self) -> Seq<StateView> {
        if self.line().len() > 0 {
            self.states().push(StateView::LinePart(self.line()))
        } else {
            self.states()
        }
    }

    pub fn new(mail_type: MailType) -> (r: Self)
        ensures
            r.states() == Seq::<StateView>::empty(),
            r.line() == Seq::<char>::empty(),
            r.spec_mail_type() == mail_type,
    {
        let r = TestMailEncoder { mail_type, current_line: Vec::new(), state_seq: Vec::new() };
        proof {
            assert(r.states() =~= Seq::<StateView>::empty());
        }
        r
    }

    /// Ends the current line as a line part, if it is not empty.
    pub fn push_line_part(&mut self)
        ensures
            final(self).states() == old(self).flushed(),
            final(self).line() == Seq::<char>::empty(),
            final(self).spec_mail_type() == old(self).spec_mail_type(),
    {
        if self.current_line.len() > 0 {
            let mut line: Vec<char> = Vec::new();
            std::mem::swap(&mut line, &mut self.current_line);
            let part = string_from_chars(line.as_slice());
            self.state_seq.push(State::LinePart(part));
            proof {
                assert(self.states() =~= old(self).flushed());
            }
        }
    }

    /// All states, the current line ended as a line part.
    pub fn into_state_seq(self) -> (r: Vec<State>)
        ensures
            states_view(r@) == self.flushed(),
    {
        let mut e = self;
        e.push_line_part();
        e.state_seq
    }

    pub fn mail_type(&self) -> (r: MailType)
        ensures
            r == self.spec_mail_type(),
    {
        self.mail_type
    }

    /// Ends the current line.
    pub fn write_new_line(&mut self)
        ensures
            final(self).states() == old(self).states().push(StateView::Line(old(self).line())),
            final(self).line() == Seq::<char>::empty(),
            final(self).spec_mail_type() == old(self).spec_mail_type(),
    {
        let mut line: Vec<char> = Vec::new();
        std::mem::swap(&mut line, &mut self.current_line);
        let text = string_from_chars(line.as_slice());
        self.state_seq.push(State::Line(text));
        proof {
            assert(self.states() =~= old(self).states().push(StateView::Line(old(self).line())));
        }
    }

    /// Records folding whitespace.
    pub fn write_fws(&mut self)
        ensures
            final(self).states() == old(self).flushed().push(StateView::FWS),
            final(self).line() == Seq::<char>::empty(),
            final(self).spec_mail_type() == old(self).spec_mail_type(),
    {
        self.push_line_part();
        self.state_seq.push(State::FWS);
        proof {
            assert(self.states() =~= old(self).flushed().push(StateView::FWS));
        }
    }

    /// Records optional folding whitespace.
    pub fn note_optional_fws(&mut self)
        ensures
            final(self).states() == old(self).flushed().push(StateView::OptFWS),
            final(self).line() == Seq::<char>::empty(),
            final(self).spec_mail_type() == old(self).spec_mail_type(),
    {
        self.push_line_part();
        self.state_seq.push(State::OptFWS);
        proof {
            assert(self.states() =~= old(self).flushed().push(StateView::OptFWS));
        }
    }

    /// Writes an ascii char.
    pub fn write_char(&mut self, ch: char)
        requires
            spec_is_ascii(ch),
        ensures
            final(self).states() == old(self).states(),
            final(self).line() == old(self).line().push(ch),
            final(self).spec_mail_type() == old(self).spec_mail_type(),
    {
        self.current_line.push(ch);
    }

    fn append(&mut self, data: &str)
        ensures
            final(self).states() == old(self).states(),
            final(self).line() == old(self).line() + data@,
            final(self).spec_mail_type() == old(self).spec_mail_type(),
    {
        let chars = str_chars(data);
        let mut i: usize = 0;
        while i < chars.len()
            invariant
                chars@ == data@,
                i <= chars.len(),
                self.states() == old(self).states(),
                self.line() == old(self).line() + data@.take(i as int),
                self.spec_mail_type() == old(self).spec_mail_type(),
            decreases chars.len() - i,
        {
            self.current_line.push(chars[i]);
            proof {
                assert(old(self).line() + data@.take(i + 1) =~= (old(self).line() + data@.take(
                    i as int,
                )).push(data@[i as int]));
            }
            i = i + 1;
        }
        proof {
            assert(data@.take(i as int) =~= data@);
        }
    }

    /// Writes an ascii str.
    pub fn write_str(&mut self, s: &str)
        requires
            forall|i: int| 0 <= i < s@.len() ==> spec_is_ascii(#[trigger] s@[i]),
        ensures
            final(self).states() == old(self).states(),
            final(self).line() == old(self).line() + s@,
            final(self).spec_mail_type() == old(self).spec_mail_type(),
    {
        self.append(s)
    }

    /// Writes utf8 text; fails with `Utf8InAsciiMail` unless the mail is
    /// internationalized.
    pub fn try_write_utf8(&mut self, data: &str) -> (r: Result<(), EncodingError>)
        ensures
            old(self).spec_mail_type() == MailType::Internationalized ==> r is Ok
                && final(self).line() == old(self).line() + data@ && final(self).states() == old(
                self,
            ).states(),
            old(self).spec_mail_type() != MailType::Internationalized ==> r == Err::<
                (),
                EncodingError,
            >(EncodingError::Utf8InAsciiMail) && *final(self) == *old(self),
            final(self).spec_mail_type() == old(self).spec_mail_type(),
    {
        if self.mail_type.is_internationalized() {
            self.append(data);
            Ok(())
        } else {
            Err(EncodingError::Utf8InAsciiMail)
        }
    }

    /// Writes `word` if all its chars are atext for the mail type; else
    /// fails with `NotAtext`.
    pub fn try_write_atext(&mut self, word: &str) -> (r: Result<(), EncodingError>)
        ensures
            (forall|i: int|
                0 <= i < word@.len() ==> spec_is_atext(#[trigger] word@[i], old(self).spec_mail_type()))
                ==> r is Ok && final(self).line() == old(self).line() + word@ && final(self).states()
                == old(self).states(),
            !(forall|i: int|
                0 <= i < word@.len() ==> spec_is_atext(#[trigger] word@[i], old(self).spec_mail_type()))
                ==> r == Err::<(), EncodingError>(EncodingError::NotAtext) && *final(self) == *old(
                self,
            ),
            final(self).spec_mail_type() == old(self).spec_mail_type(),
    {
        let chars = str_chars(word);
        let mut i: usize = 0;
        while i < chars.len()
            invariant
                chars@ == word@,
                i <= chars.len(),
                forall|j: int| 0 <= j < i ==> spec_is_atext(#[trigger] chars@[j], self.mail_type),
            decreases chars.len() - i,
        {
            if !is_atext(chars[i], self.mail_type) {
                return Err(EncodingError::NotAtext);
            }
            i = i + 1;
        }
        self.append(word);
        Ok(())
    }

    /// Writes text without checking it against the mail type.
    pub fn write_str_unchecked(&mut self, data: &str)
        ensures
            final(self).states() == old(self).states(),
            final(self).line() == old(self).line() + data@,
            final(self).spec_mail_type() == old(self).spec_mail_type(),
    {
        self.append(data)
    }

    /// The length of the current line in bytes (UTF-8).
    pub fn current_line_byte_length(&self) -> (r: usize)
        requires
            utf8_len(self.line()) <= usize::MAX,
        ensures
            r == utf8_len(self.line()),
    {
        let mut n: usize = 0;
        let mut i: usize = 0;
        while i < self.current_line.len()
            invariant
                i <= self.current_line.len(),
                n == utf8_len(self.current_line@.take(i as int)),
                utf8_len(self.current_line@) <= usize::MAX,
            decreases self.current_line.len() - i,
        {
            proof {
                let l = self.current_line@;
                assert(l.take(i + 1) =~= l.take(i as int) + seq![l[i as int]]);
                crate::utils::lemma_utf8_len_concat(l.take(i as int), seq![l[i as int]]);
                crate::utils::lemma_utf8_len_single(l[i as int]);
                assert(l =~= l.take(i + 1) + l.skip(i + 1));
                crate::utils::lemma_utf8_len_concat(l.take(i + 1), l.skip(i + 1));
            }
            n = n + char_utf8_len(self.current_line[i]);
            i = i + 1;
        }
        proof {
            assert(self.current_line@.take(i as int) =~= self.current_line@);
        }
        n
    }

    /// Writes a body: UTF-8 text for an internationalized mail, ascii for
    /// any other.
    ///
    /// # Panics
    /// on a body which is not of that form (excluded by the precondition)
    pub fn write_body(&mut self, body: &[u8])
        requires
            old(self).spec_mail_type() == MailType::Internationalized ==> vstd::utf8::valid_utf8(
                body@,
            ),
            old(self).spec_mail_type() != MailType::Internationalized ==> forall|i: int|
                0 <= i < body@.len() ==> body@[i] < 128,
        ensures
            final(self).states() == old(self).flushed().push(
                StateView::Body(
                    if old(self).spec_mail_type() == MailType::Internationalized {
                        vstd::utf8::decode_utf8(body@)
                    } else {
                        ascii_body(body@)
                    },
                ),
            ),
            final(self).line() == Seq::<char>::empty(),
            final(self).spec_mail_type() == old(self).spec_mail_type(),
    {
        self.push_line_part();
        let text = if self.mail_type.is_internationalized() {
            match utf8_from_bytes(body) {
                Some(s) => s,
                None => vstd::pervasive::unreached(),
            }
        } else {
            let mut chars: Vec<char> = Vec::new();
            let mut i: usize = 0;
            while i < body.len()
                invariant
                    i <= body.len(),
                    chars@ == ascii_body(body@.take(i as int)),
                decreases body.len() - i,
            {
                chars.push(body[i] as char);
                proof {
                    assert(ascii_body(body@.take(i + 1)) =~= ascii_body(body@.take(i as int)).push(
                        body@[i as int] as char,
                    ));
                }
                i = i + 1;
            }
            proof {
                assert(body@.take(i as int) =~= body@);
            }
            string_from_chars(chars.as_slice())
        };
        let ghost before = self.states();
        self.state_seq.push(State::Body(text));
        proof {
            assert(self.states() =~= before.push(state_view(State::Body(text))));
        }
    }
}

} // verus!
