//! Message ids (`id-left "@" id-right`, RFC 5322 msg-id without the angle
//! brackets) and their parser.
use vstd::prelude::*;

use crate::codec::test_utils::{StateView, TestMailEncoder};
use crate::components::email::dot_atom_for;
use crate::data::simple_item::SimpleItem;
use crate::error::EncodingError;
use crate::grammar::{
    MailType, all_ascii, is_atext, is_dtext, lemma_all_ascii_is_ascii_chars, spec_is_atext,
    spec_is_dtext,
};
use crate::utils::{str_chars, string_from_chars};
use vstd::string::StrSliceExecFns;

verus! {

/// How a scan over the chars of an input ended: it matched the input up
/// to an end index, it needs an input of at least a given length to
/// decide, or the input does not match.
pub enum ScanView {
    Done(int),
    Incomplete(int),
    Error,
}

/// The executable form of `ScanView`.
#[derive(Debug, Clone, Copy, PartialEq, Eq, Structural)]
pub enum Scan {
    Done(usize),
    Incomplete(usize),
    Error,
}

pub open spec fn scan_view(s: Scan) -> ScanView {
    match s {
        Scan::Done(e) => ScanView::Done(e as int),
        Scan::Incomplete(n) => ScanView::Incomplete(n as int),
        Scan::Error => ScanView::Error,
    }
}

/// The outcome of a parser on a `str`: the rest of the input and the
/// value read, the length the input would need to have, or an error.
#[derive(Debug, Clone, PartialEq, Eq)]
pub enum ParseResult<T> {
    Done(String, T),
    Incomplete(usize),
    Error,
}

pub open spec fn is_atext_i(c: char) -> bool {
    spec_is_atext(c, MailType::Internationalized)
}

pub open spec fn is_dtext_i(c: char) -> bool {
    spec_is_dtext(c, MailType::Internationalized)
}

/// Scanning a dot-atom-text at index `i`, right after an atext char:
/// further atext chars are taken, and a `.` if an atext char follows it.
pub open spec fn scan_after_atext(s: Seq<char>, i: int) -> ScanView
    decreases s.len() - i,
{
    if i >= s.len() {
        ScanView::Done(i)
    } else if is_atext_i(s[i]) {
        scan_after_atext(s, i + 1)
    } else if s[i] == '.' {
        if i + 1 >= s.len() {
            ScanView::Incomplete(i + 2)
        } else if is_atext_i(s[i + 1]) {
            scan_after_atext(s, i + 2)
        } else {
            ScanView::Done(i)
        }
    } else {
        ScanView::Done(i)
    }
}

/// A dot-atom-text (`1*atext *("." 1*atext)`) at index `start` of `s`.
pub open spec fn spec_dot_atom_text(s: Seq<char>, start: int) -> ScanView {
    if start >= s.len() {
        ScanView::Incomplete(start + 1)
    } else if !is_atext_i(s[start]) {
        ScanView::Error
    } else {
        scan_after_atext(s, start + 1)
    }
}

/// The first index at or after `i` which does not hold dtext.
pub open spec fn dtext_run_end(s: Seq<char>, i: int) -> int
    decreases s.len() - i,
{
    if i >= s.len() || !is_dtext_i(s[i]) {
        i
    } else {
        dtext_run_end(s, i + 1)
    }
}

/// A domain literal without folding whitespace (`"[" *dtext "]"`) at
/// index `start` of `s`.
pub open spec fn spec_no_fold_literal(s: Seq<char>, start: int) -> ScanView {
    if start >= s.len() {
        ScanView::Incomplete(start + 1)
    } else if s[start] != '[' {
        ScanView::Error
    } else {
        let j = dtext_run_end(s, start + 1);
        if j >= s.len() {
            ScanView::Incomplete(j + 1)
        } else if s[j] != ']' {
            ScanView::Error
        } else {
            ScanView::Done(j + 1)
        }
    }
}

/// The right part of a message id: a domain literal, or else (if the
/// literal does not match at all) a dot-atom-text.
pub open spec fn spec_id_right(s: Seq<char>, start: int) -> ScanView {
    match spec_no_fold_literal(s, start) {
        ScanView::Error => spec_dot_atom_text(s, start),
        other => other,
    }
}

/// A message id `id-left "@" id-right` at the start of `s`; when it
/// matches, the index of the `@` and the end.
pub open spec fn spec_parse_message_id(s: Seq<char>) -> (ScanView, int) {
    match spec_dot_atom_text(s, 0) {
        ScanView::Done(e) => if e >= s.len() {
            (ScanView::Incomplete(e + 1), e)
        } else if s[e] != '@' {
            (ScanView::Error, e)
        } else {
            (spec_id_right(s, e + 1), e)
        },
        other => (other, 0),
    }
}

/// `s` as a whole is a message id.
pub open spec fn is_message_id(s: Seq<char>) -> bool {
    spec_parse_message_id(s).0 == ScanView::Done(s.len() as int)
}

fn scan_dot_atom_text(s: &Vec<char>, start: usize) -> (r: Scan)
    requires
        start <= s.len(),
        s.len() < usize::MAX,
    ensures
        scan_view(r) == spec_dot_atom_text(s@, start as int),
{
    if start >= s.len() {
        return Scan::Incomplete(start + 1);
    }
    if !is_atext(s[start], MailType::Internationalized) {
        return Scan::Error;
    }
    let ghost goal = scan_after_atext(s@, start + 1);
    let mut i: usize = start + 1;
    loop
        invariant
            start < i <= s.len(),
            s.len() < usize::MAX,
            scan_after_atext(s@, i as int) == goal,
            goal == spec_dot_atom_text(s@, start as int),
        decreases s.len() - i,
    {
        if i >= s.len() {
            return Scan::Done(i);
        } else if is_atext(s[i], MailType::Internationalized) {
            i = i + 1;
        } else if s[i] == '.' {
            if i + 1 >= s.len() {
                return Scan::Incomplete(i + 2);
            } else if is_atext(s[i + 1], MailType::Internationalized) {
                i = i + 2;
            } else {
                return Scan::Done(i);
            }
        } else {
            return Scan::Done(i);
        }
    }
}

fn scan_no_fold_literal(s: &Vec<char>, start: usize) -> (r: Scan)
    requires
        start <= s.len(),
        s.len() < usize::MAX,
    ensures
        scan_view(r) == spec_no_fold_literal(s@, start as int),
{
    if start >= s.len() {
        return Scan::Incomplete(start + 1);
    }
    if s[start] != '[' {
        return Scan::Error;
    }
    let mut j: usize = start + 1;
    while j < s.len() && is_dtext(s[j], MailType::Internationalized)
        invariant
            start < j <= s.len(),
            dtext_run_end(s@, j as int) == dtext_run_end(s@, start + 1),
        decreases s.len() - j,
    {
        j = j + 1;
    }
    if j >= s.len() {
        Scan::Incomplete(j + 1)
    } else if s[j] != ']' {
        Scan::Error
    } else {
        Scan::Done(j + 1)
    }
}

fn scan_id_right(s: &Vec<char>, start: usize) -> (r: Scan)
    requires
        start <= s.len(),
        s.len() < usize::MAX,
    ensures
        scan_view(r) == spec_id_right(s@, start as int),
{
    match scan_no_fold_literal(s, start) {
        Scan::Error => scan_dot_atom_text(s, start),
        other => other,
    }
}

/// The end of a scan that matched, as a result with the rest of the input
/// and the matched text.
fn done_parts(input: &str, start: usize, end: usize) -> (r: ParseResult<String>)
    requires
        start <= end <= input@.len(),
    ensures
        r matches ParseResult::Done(rest, m) && rest@ == input@.skip(end as int) && m@
            == input@.subrange(start as int, end as int),
{
    let n = str_chars(input).len();
    let rest = input.substring_char(end, n);
    let matched = input.substring_char(start, end);
    ParseResult::Done(
        string_from_chars(str_chars(rest).as_slice()),
        string_from_chars(str_chars(matched).as_slice()),
    )
}

/// The result of a scan from the start of `input` (see `parse_outcome`).
pub open spec fn parse_outcome(input: Seq<char>, start: int, v: ScanView, r: ParseResult<String>) -> bool {
    match v {
        ScanView::Done(e) => r matches ParseResult::Done(rest, m) && rest@ == input.skip(e) && m@
            == input.subrange(start, e),
        ScanView::Incomplete(n) => r == ParseResult::<String>::Incomplete(n as usize),
        ScanView::Error => r == ParseResult::<String>::Error,
    }
}

fn to_parse_result(input: &str, start: usize, scan: Scan) -> (r: ParseResult<String>)
    requires
        start <= input@.len(),
        scan matches Scan::Done(e) ==> start <= e <= input@.len(),
    ensures
        parse_outcome(input@, start as int, scan_view(scan), r),
{
    match scan {
        Scan::Done(e) => done_parts(input, start, e),
        Scan::Incomplete(n) => ParseResult::Incomplete(n),
        Scan::Error => ParseResult::Error,
    }
}

proof fn lemma_scan_after_atext_bounds(s: Seq<char>, i: int)
    requires
        0 <= i,
    ensures
        scan_after_atext(s, i) matches ScanView::Done(e) ==> i <= e <= s.len() || (i > s.len()
            && e == i),
    decreases s.len() - i,
{
    if i < s.len() {
        if is_atext_i(s[i]) {
            lemma_scan_after_atext_bounds(s, i + 1);
        } else if s[i] == '.' && i + 1 < s.len() && is_atext_i(s[i + 1]) {
            lemma_scan_after_atext_bounds(s, i + 2);
        }
    }
}

proof fn lemma_dot_atom_text_bounds(s: Seq<char>, start: int)
    requires
        0 <= start <= s.len(),
    ensures
        spec_dot_atom_text(s, start) matches ScanView::Done(e) ==> start < e <= s.len(),
{
    if start < s.len() && is_atext_i(s[start]) {
        lemma_scan_after_atext_bounds(s, start + 1);
    }
}

proof fn lemma_dtext_run_end_bounds(s: Seq<char>, i: int)
    requires
        0 <= i <= s.len(),
    ensures
        i <= dtext_run_end(s, i) <= s.len(),
    decreases s.len() - i,
{
    if i < s.len() && is_dtext_i(s[i]) {
        lemma_dtext_run_end_bounds(s, i + 1);
    }
}

proof fn lemma_id_right_bounds(s: Seq<char>, start: int)
    requires
        0 <= start <= s.len(),
    ensures
        spec_id_right(s, start) matches ScanView::Done(e) ==> start < e <= s.len(),
{
    lemma_dot_atom_text_bounds(s, start);
    if start < s.len() && s[start] == '[' {
        lemma_dtext_run_end_bounds(s, start + 1);
    }
}

/// Parses a dot-atom-text at the start of `input`.
pub fn dot_atom_text(input: &str) -> (r: ParseResult<String>)
    requires
        input@.len() < usize::MAX,
    ensures
        parse_outcome(input@, 0, spec_dot_atom_text(input@, 0), r),
{
    let s = str_chars(input);
    let scan = scan_dot_atom_text(&s, 0);
    proof {
        lemma_dot_atom_text_bounds(s@, 0);
    }
    to_parse_result(input, 0, scan)
}

/// Parses the left part of a message id (a dot-atom-text) at the start
/// of `input`.
pub fn id_left(input: &str) -> (r: ParseResult<String>)
    requires
        input@.len() < usize::MAX,
    ensures
        parse_outcome(input@, 0, spec_dot_atom_text(input@, 0), r),
{
    dot_atom_text(input)
}

/// Parses the right part of a message id (a domain literal without
/// folding whitespace, or a dot-atom-text) at the start of `input`.
pub fn id_right(input: &str) -> (r: ParseResult<String>)
    requires
        input@.len() < usize::MAX,
    ensures
        parse_outcome(input@, 0, spec_id_right(input@, 0), r),
{
    let s = str_chars(input);
    let scan = scan_id_right(&s, 0);
    proof {
        lemma_id_right_bounds(s@, 0);
    }
    to_parse_result(input, 0, scan)
}

/// Parses a message id `id-left "@" id-right` at the start of `input`;
/// on success the value is the left and the right part.
pub fn parse_message_id(input: &str) -> (r: ParseResult<(String, String)>)
    requires
        input@.len() < usize::MAX,
    ensures
        match spec_parse_message_id(input@) {
            (ScanView::Done(e), at) => r matches ParseResult::Done(rest, (l, rp)) && rest@
                == input@.skip(e) && l@ == input@.take(at) && rp@ == input@.subrange(at + 1, e),
            (ScanView::Incomplete(n), _) => r == ParseResult::<(String, String)>::Incomplete(
                n as usize,
            ),
            (ScanView::Error, _) => r == ParseResult::<(String, String)>::Error,
        },
{
    let s = str_chars(input);
    proof {
        lemma_dot_atom_text_bounds(s@, 0);
    }
    let at = match scan_dot_atom_text(&s, 0) {
        Scan::Done(e) => e,
        Scan::Incomplete(n) => return ParseResult::Incomplete(n),
        Scan::Error => return ParseResult::Error,
    };
    if at >= s.len() {
        return ParseResult::Incomplete(at + 1);
    }
    if s[at] != '@' {
        return ParseResult::Error;
    }
    proof {
        lemma_id_right_bounds(s@, at + 1);
    }
    match scan_id_right(&s, at + 1) {
        Scan::Done(end) => {
            let rest = input.substring_char(end, s.len());
            let left = input.substring_char(0, at);
            let right = input.substring_char(at + 1, end);
            ParseResult::Done(
                string_from_chars(str_chars(rest).as_slice()),
                (
                    string_from_chars(str_chars(left).as_slice()),
                    string_from_chars(str_chars(right).as_slice()),
                ),
            )
        },
        Scan::Incomplete(n) => ParseResult::Incomplete(n),
        Scan::Error => ParseResult::Error,
    }
}

/// A message id, without the angle brackets around it.
#[derive(Debug, Hash, Eq, PartialEq)]
pub struct MessageID {
    message_id: SimpleItem,
}

impl Clone for MessageID {
    fn clone(&self) -> (r: Self)
        ensures
            r@ == self@,
            r.is_ascii_id() == self.is_ascii_id(),
    {
        proof {
            use_type_invariant(self);
        }
        MessageID { message_id: self.message_id.clone() }
    }
}

impl View for MessageID {
    type V = Seq<char>;

    closed spec fn view(&self) -> Seq<char> {
        self.message_id@
    }
}

/// The states a test encoder records for a message id written in full:
/// an optional FWS, the id in angle brackets, an optional FWS.
pub open spec fn message_id_states(id: Seq<char>) -> Seq<StateView> {
    seq![StateView::OptFWS, StateView::LinePart(seq!['<'] + id + seq!['>']), StateView::OptFWS]
}

impl MessageID {
    #[verifier::type_invariant]
    spec fn inv(&self) -> bool {
        self.message_id.wf()
    }

    /// The id's item is ascii iff the id is.
    pub closed spec fn is_ascii_id(&self) -> bool {
        self.message_id is Ascii
    }

    /// The message id.
    pub fn as_str(&self) -> (r: &str)
        ensures
            r@ == self@,
    {
        self.message_id.as_str()
    }

    /// A message id holding `input`; fails with `Malformed` unless the
    /// whole input is a message id.
    pub fn from_input(input: &str) -> (r: Result<Self, EncodingError>)
        requires
            input@.len() < usize::MAX,
        ensures
            is_message_id(input@) ==> (r matches Ok(m) && m@ == input@ && (m.is_ascii_id()
                <==> all_ascii(input@))),
            !is_message_id(input@) ==> r == Err::<Self, EncodingError>(EncodingError::Malformed),
    {
        let s = str_chars(input);
        let ok = match parse_message_id(input) {
            ParseResult::Done(rest, _) => str_chars(rest.as_str()).len() == 0,
            _ => false,
        };
        proof {
            lemma_dot_atom_text_bounds(s@, 0);
            if let ScanView::Done(at) = spec_dot_atom_text(s@, 0) {
                if at < s@.len() {
                    lemma_id_right_bounds(s@, at + 1);
                }
            }
        }
        if !ok {
            return Err(EncodingError::Malformed);
        }
        let text = string_from_chars(s.as_slice());
        Ok(MessageID { message_id: SimpleItem::from_string(text) })
    }

    /// Writes the id in angle brackets between two optional FWS; an id
    /// which is not ascii can only be written into an internationalized
    /// mail, else this fails with `Utf8InAsciiMail` after the opening
    /// bracket.
    pub fn encode(&self, encoder: &mut TestMailEncoder) -> (r: Result<(), EncodingError>)
        ensures
            final(encoder).spec_mail_type() == old(encoder).spec_mail_type(),
            (self.is_ascii_id() || old(encoder).spec_mail_type() == MailType::Internationalized)
                ==> r is Ok && final(encoder).states() == old(encoder).flushed() + message_id_states(
                self@,
            ) && final(encoder).line() == Seq::<char>::empty(),
            !(self.is_ascii_id() || old(encoder).spec_mail_type() == MailType::Internationalized)
                ==> r == Err::<(), EncodingError>(EncodingError::Utf8InAsciiMail)
                && final(encoder).states() == old(encoder).flushed().push(StateView::OptFWS)
                && final(encoder).line() == seq!['<'],
    {
        proof {
            reveal_strlit("<");
        }
        encoder.note_optional_fws();
        encoder.write_char('<');
        match &self.message_id {
            SimpleItem::Ascii(ascii) => {
                proof {
                    use_type_invariant(self);
                    lemma_all_ascii_is_ascii_chars(ascii@);
                }
                encoder.write_str(ascii.as_str());
            },
            SimpleItem::Utf8(utf8) => {
                match encoder.try_write_utf8(utf8.as_str()) {
                    Ok(()) => {},
                    Err(e) => return Err(e),
                }
            },
        }
        encoder.write_char('>');
        let ghost before = encoder.line();
        encoder.note_optional_fws();
        proof {
            assert(before =~= seq!['<'] + self@ + seq!['>']);
            assert(old(encoder).flushed() + message_id_states(self@) =~= old(encoder).flushed().push(
                StateView::OptFWS,
            ).push(StateView::LinePart(before)).push(StateView::OptFWS));
        }
        Ok(())
    }
}

/// The states of message ids written one after the other.
pub open spec fn ids_states(ids: Seq<Seq<char>>) -> Seq<StateView>
    decreases ids.len(),
{
    if ids.len() == 0 {
        Seq::empty()
    } else {
        ids_states(ids.drop_last()) + message_id_states(ids.last())
    }
}

/// A list of message ids.
pub struct MessageIDList(pub Vec<MessageID>);

impl MessageIDList {
    /// The ids.
    pub open spec fn ids(&self) -> Seq<Seq<char>> {
        self.0@.map_values(|m: MessageID| m@)
    }

    /// Whether each of the first `k` ids can be written into a mail of
    /// type `mt`.
    pub open spec fn all_writable_upto(&self, mt: MailType, k: int) -> bool {
        forall|j: int|
            0 <= j < k ==> (#[trigger] self.0@[j]).is_ascii_id() || mt == MailType::Internationalized
    }

    /// Whether each id can be written into a mail of type `mt`.
    pub open spec fn all_writable(&self, mt: MailType) -> bool {
        forall|i: int|
            0 <= i < self.0@.len() ==> (#[trigger] self.0@[i]).is_ascii_id() || mt
                == MailType::Internationalized
    }

    /// Writes the ids one after the other (each as `MessageID::encode`
    /// does); fails with `Utf8InAsciiMail` at the first id which is not
    /// ascii if the mail is not internationalized, having written the ids
    /// before it, an optional FWS and the `<` of that id.
    pub fn encode(&self, encoder: &mut TestMailEncoder) -> (r: Result<(), EncodingError>)
        ensures
            final(encoder).spec_mail_type() == old(encoder).spec_mail_type(),
            self.0@.len() == 0 ==> r is Ok && final(encoder).states() == old(encoder).states()
                && final(encoder).line() == old(encoder).line(),
            self.0@.len() > 0 && self.all_writable(old(encoder).spec_mail_type()) ==> r is Ok
                && final(encoder).states() == old(encoder).flushed() + ids_states(self.ids())
                && final(encoder).line() == Seq::<char>::empty(),
            !self.all_writable(old(encoder).spec_mail_type()) ==> r == Err::<(), EncodingError>(
                EncodingError::Utf8InAsciiMail,
            ) && final(encoder).line() == seq!['<'] && exists|k: int|
                0 <= k < self.0@.len() && !(#[trigger] self.0@[k]).is_ascii_id()
                    && self.all_writable_upto(old(encoder).spec_mail_type(), k)
                    && final(encoder).states() == old(encoder).flushed() + ids_states(
                    self.ids().take(k),
                ) + seq![StateView::OptFWS],
    {
        let ghost mt = encoder.spec_mail_type();
        let mut i: usize = 0;
        while i < self.0.len()
            invariant
                i <= self.0@.len(),
                encoder.spec_mail_type() == mt,
                mt == old(encoder).spec_mail_type(),
                encoder.flushed() == old(encoder).flushed() + ids_states(self.ids().take(i as int)),
                i == 0 ==> encoder.states() == old(encoder).states() && encoder.line() == old(
                    encoder,
                ).line(),
                i > 0 ==> encoder.states() == old(encoder).flushed() + ids_states(
                    self.ids().take(i as int),
                ) && encoder.line() == Seq::<char>::empty(),
                self.all_writable_upto(mt, i as int),
            decreases self.0.len() - i,
        {
            let ghost before = encoder.flushed();
            match self.0[i].encode(encoder) {
                Ok(()) => {},
                Err(e) => {
                    proof {
                        assert(old(encoder).flushed() + ids_states(self.ids().take(i as int))
                            + seq![StateView::OptFWS] =~= before.push(StateView::OptFWS));
                    }
                    return Err(e);
                },
            }
            proof {
                let t = self.ids().take(i + 1);
                assert(t.drop_last() =~= self.ids().take(i as int));
                assert(t.last() == self.0@[i as int]@);
                assert(encoder.flushed() =~= before + message_id_states(self.0@[i as int]@));
                assert(encoder.states() =~= before + message_id_states(self.0@[i as int]@));
            }
            i = i + 1;
        }
        proof {
            assert(self.ids().take(i as int) =~= self.ids());
        }
        Ok(())
    }
}

/// `t` is a dot-atom text: atext chars with single dots between them.
pub open spec fn is_dot_atom(t: Seq<char>) -> bool {
    dot_atom_for(t, MailType::Internationalized)
}

/// `t` is a domain literal without folding whitespace: `[`, dtext, `]`.
pub open spec fn is_no_fold_literal(t: Seq<char>) -> bool {
    &&& t.len() >= 2
    &&& t[0] == '['
    &&& t.last() == ']'
    &&& forall|j: int| 1 <= j < t.len() - 1 ==> is_dtext_i(#[trigger] t[j])
}

/// From index `i` on, `s` continues a dot-atom text: each char is atext,
/// or a `.` followed by an atext char.
spec fn tail_ok(s: Seq<char>, i: int) -> bool {
    forall|j: int|
        i <= j < s.len() ==> if #[trigger] s[j] == '.' {
            j + 1 < s.len() && is_atext_i(s[j + 1])
        } else {
            is_atext_i(s[j])
        }
}

proof fn lemma_dot_atom_tail(t: Seq<char>)
    ensures
        is_dot_atom(t) <==> (t.len() > 0 && is_atext_i(t[0]) && tail_ok(t, 1)),
{
    if is_dot_atom(t) {
        assert(t[0] != '.');
        assert forall|j: int| 1 <= j < t.len() implies if #[trigger] t[j] == '.' {
            j + 1 < t.len() && is_atext_i(t[j + 1])
        } else {
            is_atext_i(t[j])
        } by {
            if t[j] == '.' {
                assert(j + 1 < t.len());
                if t[j + 1] == '.' {
                    assert(t[j + 1 - 1] != '.');
                }
            }
        }
    }
    if t.len() > 0 && is_atext_i(t[0]) && tail_ok(t, 1) {
        assert forall|i: int| 0 <= i < t.len() implies (if #[trigger] t[i] == '.' {
            0 < i && i + 1 < t.len() && t[i - 1] != '.'
        } else {
            spec_is_atext(t[i], MailType::Internationalized)
        }) by {
            if t[i] == '.' {
                assert(i != 0);
                if i - 1 >= 1 {
                    assert(t[i - 1] == '.' ==> is_atext_i(t[i - 1 + 1]));
                }
            }
        }
    }
}

/// The scan of a dot-atom text reaches the end of `s` exactly when the
/// rest of `s` continues the dot-atom text.
proof fn lemma_scan_to_end(s: Seq<char>, i: int)
    requires
        0 <= i <= s.len(),
    ensures
        scan_after_atext(s, i) == ScanView::Done(s.len() as int) <==> tail_ok(s, i),
    decreases s.len() - i,
{
    if i < s.len() {
        if is_atext_i(s[i]) {
            lemma_scan_to_end(s, i + 1);
            if tail_ok(s, i + 1) {
                assert forall|j: int| i <= j < s.len() implies if #[trigger] s[j] == '.' {
                    j + 1 < s.len() && is_atext_i(s[j + 1])
                } else {
                    is_atext_i(s[j])
                } by {
                    if j > i {
                        assert(s[j] == s[j]);
                    }
                }
            }
        } else if s[i] == '.' {
            assert(!tail_ok(s, i) || (i + 1 < s.len() && is_atext_i(s[i + 1])));
            if i + 1 < s.len() && is_atext_i(s[i + 1]) {
                lemma_scan_to_end(s, i + 2);
                if tail_ok(s, i + 2) {
                    assert forall|j: int| i <= j < s.len() implies if #[trigger] s[j] == '.' {
                        j + 1 < s.len() && is_atext_i(s[j + 1])
                    } else {
                        is_atext_i(s[j])
                    } by {
                        if j > i + 1 {
                            assert(s[j] == s[j]);
                        }
                    }
                }
            }
        } else {
            assert(!tail_ok(s, i) || is_atext_i(s[i]));
        }
    }
}

/// The scan of a dot-atom text stops at index `e` exactly when the chars
/// before `e` continue the dot-atom text and the char at `e` neither is
/// atext nor a `.`.
proof fn lemma_scan_stops_at(s: Seq<char>, i: int, e: int)
    requires
        0 <= i <= e < s.len(),
        !is_atext_i(s[e]),
        s[e] != '.',
    ensures
        scan_after_atext(s, i) == ScanView::Done(e) <==> tail_ok(s.take(e), i),
    decreases e - i,
{
    let t = s.take(e);
    if i == e {
    } else if is_atext_i(s[i]) {
        lemma_scan_stops_at(s, i + 1, e);
        if tail_ok(t, i + 1) {
            assert forall|j: int| i <= j < t.len() implies if #[trigger] t[j] == '.' {
                j + 1 < t.len() && is_atext_i(t[j + 1])
            } else {
                is_atext_i(t[j])
            } by {
                if j > i {
                    assert(t[j] == t[j]);
                }
            }
        }
    } else if s[i] == '.' {
        assert(t[i] == s[i]);
        if i + 1 < e && is_atext_i(s[i + 1]) {
            assert(t[i + 1] == s[i + 1]);
            lemma_scan_stops_at(s, i + 2, e);
            if tail_ok(t, i + 2) {
                assert forall|j: int| i <= j < t.len() implies if #[trigger] t[j] == '.' {
                    j + 1 < t.len() && is_atext_i(t[j + 1])
                } else {
                    is_atext_i(t[j])
                } by {
                    if j > i + 1 {
                        assert(t[j] == t[j]);
                    }
                }
            }
        } else if i + 1 == e {
            assert(!tail_ok(t, i));
        } else {
            assert(t[i + 1] == s[i + 1]);
            assert(!tail_ok(t, i));
        }
    } else {
        assert(t[i] == s[i]);
        assert(!tail_ok(t, i));
    }
}

/// Continuing a dot-atom text does not depend on what came before.
proof fn lemma_tail_ok_skip(s: Seq<char>, k: int, i: int)
    requires
        0 <= k <= s.len(),
        0 <= i,
    ensures
        tail_ok(s.skip(k), i) <==> tail_ok(s, k + i),
{
    let t = s.skip(k);
    if tail_ok(t, i) {
        assert forall|j: int| k + i <= j < s.len() implies if #[trigger] s[j] == '.' {
            j + 1 < s.len() && is_atext_i(s[j + 1])
        } else {
            is_atext_i(s[j])
        } by {
            assert(t[j - k] == s[j]);
            if s[j] == '.' {
                assert(t[j - k + 1] == s[j + 1]);
            }
        }
    }
    if tail_ok(s, k + i) {
        assert forall|j: int| i <= j < t.len() implies if #[trigger] t[j] == '.' {
            j + 1 < t.len() && is_atext_i(t[j + 1])
        } else {
            is_atext_i(t[j])
        } by {
            assert(t[j] == s[k + j]);
            if t[j] == '.' {
                assert(t[j + 1] == s[k + j + 1]);
            }
        }
    }
}

/// A dot-atom text at index `start` reaches the end of `s` exactly when
/// the rest of `s` is a dot-atom text.
proof fn lemma_dot_atom_to_end(s: Seq<char>, start: int)
    requires
        0 <= start <= s.len(),
    ensures
        spec_dot_atom_text(s, start) == ScanView::Done(s.len() as int) <==> is_dot_atom(
            s.skip(start),
        ),
{
    let t = s.skip(start);
    lemma_dot_atom_tail(t);
    if start < s.len() {
        assert(t[0] == s[start]);
        lemma_scan_to_end(s, start + 1);
        lemma_tail_ok_skip(s, start, 1);
    }
}

/// A domain literal at index `start` reaches the end of `s` exactly when
/// the rest of `s` is a domain literal.
proof fn lemma_literal_to_end(s: Seq<char>, start: int)
    requires
        0 <= start <= s.len(),
    ensures
        spec_no_fold_literal(s, start) == ScanView::Done(s.len() as int) <==> is_no_fold_literal(
            s.skip(start),
        ),
{
    let t = s.skip(start);
    if start < s.len() && s[start] == '[' {
        lemma_dtext_run_end_bounds(s, start + 1);
        lemma_dtext_run_end_all(s, start + 1);
        let j = dtext_run_end(s, start + 1);
        if is_no_fold_literal(t) {
            assert(t[0] == s[start]);
            assert(t.last() == s[s.len() - 1]);
            assert(!is_dtext_i(s[s.len() - 1]));
            if j < s.len() - 1 {
                assert(t[j - start] == s[j]);
            }
        }
        if spec_no_fold_literal(s, start) == ScanView::Done(s.len() as int) {
            assert forall|k: int| 1 <= k < t.len() - 1 implies is_dtext_i(#[trigger] t[k]) by {
                assert(t[k] == s[start + k]);
            }
        }
    } else if start < s.len() {
        assert(t[0] == s[start]);
    }
}

proof fn lemma_dtext_run_end_all(s: Seq<char>, i: int)
    requires
        0 <= i <= s.len(),
    ensures
        forall|k: int| i <= k < dtext_run_end(s, i) ==> is_dtext_i(#[trigger] s[k]),
        dtext_run_end(s, i) < s.len() ==> !is_dtext_i(s[dtext_run_end(s, i)]),
    decreases s.len() - i,
{
    if i < s.len() && is_dtext_i(s[i]) {
        lemma_dtext_run_end_all(s, i + 1);
    }
}

/// A message id as a whole is `left "@" right`, where `left` is a
/// dot-atom text and `right` a dot-atom text or a domain literal without
/// folding whitespace.
pub proof fn lemma_message_id_form(s: Seq<char>)
    ensures
        is_message_id(s) <==> exists|k: int|
            0 <= k < s.len() && s[k] == '@' && is_dot_atom(#[trigger] s.take(k)) && (is_dot_atom(
                s.skip(k + 1),
            ) || is_no_fold_literal(s.skip(k + 1))),
{
    lemma_dot_atom_text_bounds(s, 0);
    if is_message_id(s) {
        let e = spec_dot_atom_text(s, 0)->Done_0;
        assert(s[e] == '@');
        lemma_scan_stops_at(s, 1, e);
        lemma_dot_atom_tail(s.take(e));
        lemma_literal_to_end(s, e + 1);
        lemma_dot_atom_to_end(s, e + 1);
        assert(is_dot_atom(s.take(e)));
    }
    if exists|k: int|
        0 <= k < s.len() && s[k] == '@' && is_dot_atom(#[trigger] s.take(k)) && (is_dot_atom(
            s.skip(k + 1),
        ) || is_no_fold_literal(s.skip(k + 1))) {
        let k = choose|k: int|
            0 <= k < s.len() && s[k] == '@' && is_dot_atom(#[trigger] s.take(k)) && (is_dot_atom(
                s.skip(k + 1),
            ) || is_no_fold_literal(s.skip(k + 1)));
        let t = s.take(k);
        lemma_dot_atom_tail(t);
        assert(t[0] == s[0]);
        lemma_scan_stops_at(s, 1, k);
        assert(spec_dot_atom_text(s, 0) == ScanView::Done(k));
        lemma_literal_to_end(s, k + 1);
        lemma_dot_atom_to_end(s, k + 1);
        if !is_no_fold_literal(s.skip(k + 1)) {
            let r = s.skip(k + 1);
            lemma_dot_atom_tail(r);
            assert(r[0] == s[k + 1]);
            assert(spec_no_fold_literal(s, k + 1) == ScanView::Error);
        }
    }
}

} // verus!
