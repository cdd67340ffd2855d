//! Unstructured header text (e.g. a subject).
use vstd::prelude::*;

use crate::codec::encoder::{
    EncodeHeaderHandle, HeaderView, TokenView, buffer_ascii, lemma_write_chars_keeps_mail_type,
    lemma_writes_ascii, then_write,
};
use crate::codec::writer::{EncodedWordEncoding, Write, replay};
use crate::components::utils::text_partition::{
    Partition, first_unencodable, is_space_class, is_vchar_class, part_ok, part_text,
    parts_concat, partition, well_partitioned,
};
use crate::data::encoded_word::{
    EncodedWord, encoded_word_ops, lemma_q_encoded_word_write_ascii, spec_encoded_word_write,
};
use crate::error::{EncodingError, lemma_unit_ok};
use crate::grammar::encoded_word::EncodedWordContext;
use crate::grammar::{MailType, is_vchar, spec_is_ascii, spec_is_vchar};
use crate::utils::str_chars;

verus! {

/// Unstructured text of a header field.
#[derive(Debug, Clone, PartialEq, Eq, Hash)]
pub struct Unstructured {
    text: String,
}

impl View for Unstructured {
    type V = Seq<char>;

    closed spec fn view(&self) -> Seq<char> {
        self.text@
    }
}

/// `s` holds a char of a run of visible chars.
pub open spec fn has_word(s: Seq<char>) -> bool {
    exists|k: int| 0 <= k < s.len() && is_vchar_class(#[trigger] s[k])
}

proof fn lemma_part_char_in_concat<'a>(ps: Seq<Partition<'a>>, i: int, j: int)
    requires
        0 <= i < ps.len(),
        0 <= j < part_text(ps[i]).len(),
    ensures
        exists|k: int|
            0 <= k < parts_concat(ps).len() && #[trigger] parts_concat(ps)[k] == part_text(
                ps[i],
            )[j],
    decreases ps.len(),
{
    let pre = parts_concat(ps.drop_last());
    assert(parts_concat(ps) == pre + part_text(ps.last()));
    if i == ps.len() - 1 {
        let k = pre.len() + j;
        assert(parts_concat(ps)[k] == part_text(ps[i])[j]);
    } else {
        assert(ps.drop_last()[i] == ps[i]);
        lemma_part_char_in_concat(ps.drop_last(), i, j);
        let k = choose|k: int|
            0 <= k < pre.len() && #[trigger] pre[k] == part_text(ps.drop_last()[i])[j];
        assert(parts_concat(ps)[k] == pre[k]);
    }
}

/// Every char of `s` is a visible char of the mail type `mt`.
pub open spec fn all_vchar(s: Seq<char>, mt: MailType) -> bool {
    forall|j: int| 0 <= j < s.len() ==> spec_is_vchar(#[trigger] s[j], mt)
}

/// Writing a run of visible chars: as encoded words if it holds chars
/// which are not visible chars of the mail type, else as it is.
pub open spec fn spec_write_word(v: HeaderView, data: Seq<char>) -> (HeaderView, Result<(), EncodingError>) {
    if all_vchar(data, v.mail_type) {
        v.write_with(TokenView::NowUnchecked, data)
    } else {
        (spec_encoded_word_write(v, data, EncodedWordEncoding::QuotedPrintable), Ok(()))
    }
}

/// Writing the rest of a run of whitespace from index `j` on: CR and LF
/// are dropped, the first other char is written as folding whitespace,
/// the others as they are; at the end folding whitespace is written if
/// there was none.
pub open spec fn spec_write_space_from(v: HeaderView, data: Seq<char>, j: int, had_fws: bool) -> (
    HeaderView,
    Result<(), EncodingError>,
)
    decreases data.len() - j,
{
    if j >= data.len() {
        if had_fws {
            (v, Ok(()))
        } else {
            (v.fws(), Ok(()))
        }
    } else if data[j] == '\r' || data[j] == '\n' {
        spec_write_space_from(v, data, j + 1, had_fws)
    } else if had_fws {
        let (w, r) = v.write_one(data[j]);
        if r is Err {
            (w, r)
        } else {
            spec_write_space_from(w, data, j + 1, true)
        }
    } else {
        spec_write_space_from(v.fws(), data, j + 1, true)
    }
}

/// Writing a run.
pub open spec fn spec_write_part<'a>(v: HeaderView, p: Partition<'a>) -> (HeaderView, Result<(), EncodingError>) {
    match p {
        Partition::VCHAR(data) => spec_write_word(v, data@),
        Partition::SPACE(data) => spec_write_space_from(v, data@, 0, false),
    }
}

/// Writing runs one after the other, stopping at the first error.
pub open spec fn spec_write_parts<'a>(v: HeaderView, ps: Seq<Partition<'a>>) -> (
    HeaderView,
    Result<(), EncodingError>,
)
    decreases ps.len(),
{
    if ps.len() == 0 {
        (v, Ok(()))
    } else {
        then_write(spec_write_parts(v, ps.drop_last()), |w: HeaderView| spec_write_part(w, ps.last()))
    }
}

/// One of the runs is a run of visible chars.
pub open spec fn has_vchar_part<'a>(ps: Seq<Partition<'a>>) -> bool {
    exists|k: int| 0 <= k < ps.len() && #[trigger] ps[k] is VCHAR
}

/// Writing unstructured text made of the runs `ps`: the runs, then the
/// error `WhitespaceOnly` if there is no run of visible chars.
pub open spec fn spec_unstructured_parts<'a>(v: HeaderView, ps: Seq<Partition<'a>>) -> (
    HeaderView,
    Result<(), EncodingError>,
) {
    let (w, r) = spec_write_parts(v, ps);
    if r is Err {
        (w, r)
    } else if has_vchar_part(ps) {
        (w, Ok(()))
    } else {
        (w, Err(EncodingError::WhitespaceOnly))
    }
}

proof fn lemma_write_parts_stop<'a>(v: HeaderView, ps: Seq<Partition<'a>>, k: int)
    requires
        0 <= k <= ps.len(),
        spec_write_parts(v, ps.take(k)).1 is Err,
    ensures
        spec_write_parts(v, ps) == spec_write_parts(v, ps.take(k)),
    decreases ps.len(),
{
    if k == ps.len() {
        assert(ps.take(k) =~= ps);
    } else {
        assert(ps.drop_last().take(k) =~= ps.take(k));
        lemma_write_parts_stop(v, ps.drop_last(), k);
    }
}

/// Writes a run of visible chars: as encoded words if it holds chars
/// which are not visible chars of the mail type, else as it is.
fn write_word(handle: &mut EncodeHeaderHandle, data: &str) -> (r: Result<(), EncodingError>)
    requires
        old(handle).wf(),
    ensures
        final(handle).wf(),
        (final(handle)@, r) == spec_write_word(old(handle)@, data@),
{
    let chars = str_chars(data);
    let mt = handle.mail_type();
    let mut needs_encoding = false;
    let mut j: usize = 0;
    while j < chars.len()
        invariant
            j <= chars.len(),
            chars@ == data@,
            mt == old(handle)@.mail_type,
            !needs_encoding <==> forall|k: int| 0 <= k < j ==> spec_is_vchar(#[trigger] chars@[k], mt),
        decreases chars.len() - j,
    {
        if !is_vchar(chars[j], mt) {
            needs_encoding = true;
        }
        j = j + 1;
    }
    if needs_encoding {
        EncodedWord::write_into(
            handle,
            data,
            EncodedWordEncoding::QuotedPrintable,
            EncodedWordContext::Text,
        );
        Ok(())
    } else {
        let r = handle.write_str_unchecked(data);
        proof {
            lemma_unit_ok(r);
        }
        r
    }
}

/// Writes a run of whitespace: folding whitespace, then the further
/// blanks of the run; CR and LF are dropped.
fn write_space(handle: &mut EncodeHeaderHandle, data: &str) -> (r: Result<(), EncodingError>)
    requires
        old(handle).wf(),
        forall|j: int| 0 <= j < data@.len() ==> is_space_class(#[trigger] data@[j]),
    ensures
        final(handle).wf(),
        (final(handle)@, r) == spec_write_space_from(old(handle)@, data@, 0, false),
{
    let chars = str_chars(data);
    let mut had_fws = false;
    let mut j: usize = 0;
    while j < chars.len()
        invariant
            j <= chars.len(),
            chars@ == data@,
            forall|k: int| 0 <= k < data@.len() ==> is_space_class(#[trigger] data@[k]),
            handle.wf(),
            spec_write_space_from(old(handle)@, data@, 0, false) == spec_write_space_from(
                handle@,
                data@,
                j as int,
                had_fws,
            ),
        decreases chars.len() - j,
    {
        let ch = chars[j];
        if ch == '\r' || ch == '\n' {
        } else if had_fws {
            proof {
                assert(is_space_class(data@[j as int]));
            }
            match handle.write_char(ch) {
                Ok(()) => {},
                Err(e) => {
                    return Err(e);
                },
            }
        } else {
            handle.write_fws();
            had_fws = true;
        }
        j = j + 1;
    }
    if !had_fws {
        handle.write_fws();
    }
    Ok(())
}

/// Replaying writes never changes the mail type.
proof fn lemma_replay_keeps_mail_type(v: HeaderView, cs: Seq<char>, ops: Seq<Write<char>>)
    ensures
        replay(v, cs, ops).mail_type == v.mail_type,
    decreases ops.len(),
{
    if ops.len() > 0 {
        lemma_replay_keeps_mail_type(v, cs, ops.drop_last());
        let w = replay(v, cs, ops.drop_last());
        lemma_write_chars_keeps_mail_type(w.with_token(TokenView::NowStr), cs);
    }
}

/// Writing the rest of a run of whitespace keeps the buffer ascii and the
/// mail type.
proof fn lemma_write_space_ascii(v: HeaderView, data: Seq<char>, j: int, had_fws: bool)
    requires
        buffer_ascii(v),
        0 <= j,
        forall|k: int| 0 <= k < data.len() ==> is_space_class(#[trigger] data[k]),
    ensures
        buffer_ascii(spec_write_space_from(v, data, j, had_fws).0),
        spec_write_space_from(v, data, j, had_fws).0.mail_type == v.mail_type,
    decreases data.len() - j,
{
    lemma_writes_ascii(v, TokenView::NowChar, Seq::empty(), ' ');
    if j < data.len() {
        let c = data[j];
        assert(is_space_class(c));
        assert(spec_is_ascii(c));
        if c == '\r' || c == '\n' {
            lemma_write_space_ascii(v, data, j + 1, had_fws);
        } else if had_fws {
            lemma_writes_ascii(v, TokenView::NowChar, Seq::empty(), c);
            let (w, r) = v.write_one(c);
            if r is Ok {
                lemma_write_space_ascii(w, data, j + 1, true);
            }
        } else {
            lemma_write_space_ascii(v.fws(), data, j + 1, true);
        }
    }
}

/// Writing a run of visible chars into a mail which is not
/// internationalized writes ascii only, and keeps the mail type.
proof fn lemma_write_word_ascii(v: HeaderView, data: Seq<char>)
    requires
        buffer_ascii(v),
        v.mail_type != MailType::Internationalized,
    ensures
        buffer_ascii(spec_write_word(v, data).0),
        spec_write_word(v, data).0.mail_type == v.mail_type,
{
    if all_vchar(data, v.mail_type) {
        assert forall|j: int| 0 <= j < data.len() implies spec_is_ascii(#[trigger] data[j]) by {
            assert(spec_is_vchar(data[j], v.mail_type));
        }
        lemma_writes_ascii(v, TokenView::NowUnchecked, data, ' ');
        lemma_write_chars_keeps_mail_type(v.with_token(TokenView::NowUnchecked), data);
    } else {
        lemma_q_encoded_word_write_ascii(v, data);
        lemma_replay_keeps_mail_type(
            v,
            "utf8"@,
            encoded_word_ops(data, EncodedWordEncoding::QuotedPrintable),
        );
    }
}

/// Writing runs into a mail which is not internationalized writes ascii
/// only, and keeps the mail type.
proof fn lemma_write_parts_ascii<'a>(v: HeaderView, ps: Seq<Partition<'a>>)
    requires
        buffer_ascii(v),
        v.mail_type != MailType::Internationalized,
        forall|i: int| 0 <= i < ps.len() ==> #[trigger] part_ok(ps[i]),
    ensures
        buffer_ascii(spec_write_parts(v, ps).0),
        spec_write_parts(v, ps).0.mail_type == v.mail_type,
    decreases ps.len(),
{
    if ps.len() > 0 {
        assert forall|i: int| 0 <= i < ps.drop_last().len() implies #[trigger] part_ok(ps.drop_last()[i]) by {
            assert(ps.drop_last()[i] == ps[i]);
        }
        lemma_write_parts_ascii(v, ps.drop_last());
        let (w, r) = spec_write_parts(v, ps.drop_last());
        if r is Ok {
            let p = ps.last();
            assert(part_ok(ps[ps.len() - 1]));
            match p {
                Partition::VCHAR(data) => {
                    lemma_write_word_ascii(w, data@);
                },
                Partition::SPACE(data) => {
                    assert forall|k: int| 0 <= k < data@.len() implies is_space_class(#[trigger] data@[k]) by {
                        assert(part_text(p)[k] == data@[k]);
                    }
                    lemma_write_space_ascii(w, data@, 0, false);
                },
            }
        }
    }
}

/// Unstructured text written into a mail which is not internationalized
/// adds no char that is not ascii to the header: every run holding a char
/// that is not visible ascii is written as encoded words.
pub proof fn lemma_unstructured_ascii_mail<'a>(v: HeaderView, ps: Seq<Partition<'a>>)
    requires
        buffer_ascii(v),
        v.mail_type != MailType::Internationalized,
        well_partitioned(ps),
    ensures
        buffer_ascii(spec_unstructured_parts(v, ps).0),
{
    lemma_write_parts_ascii(v, ps);
}

impl Unstructured {
    /// Unstructured text holding `text`.
    pub fn from_input(text: String) -> (r: Self)
        ensures
            r@ == text@,
    {
        Unstructured { text }
    }

    /// The text.
    pub fn as_str(&self) -> (r: &str)
        ensures
            r@ == self@,
    {
        self.text.as_str()
    }

    /// Writes the text into a header: runs of visible chars as they are
    /// (or as encoded words if they hold chars which are not visible chars
    /// of the mail type), each run of whitespace as folding whitespace
    /// followed by its further blanks (CR and LF are dropped).
    ///
    /// Fails with `NotEncodable` on a char which is neither visible nor
    /// whitespace, with `WhitespaceOnly` if the text holds no visible char,
    /// and with the error of a write that failed.
    pub fn encode(&self, handle: &mut EncodeHeaderHandle) -> (r: Result<(), EncodingError>)
        requires
            old(handle).wf(),
        ensures
            final(handle).wf(),
            self@.len() == 0 ==> r is Ok && *final(handle) == *old(handle),
            first_unencodable(self@, 0) matches Some(ch) ==> r == Err::<(), EncodingError>(
                EncodingError::NotEncodable(ch),
            ) && *final(handle) == *old(handle),
            self@.len() > 0 && first_unencodable(self@, 0) is None ==> exists|ps: Seq<Partition>|
                parts_concat(ps) == self@ && well_partitioned(ps) && (final(handle)@, r)
                    == spec_unstructured_parts(old(handle)@, ps),
            buffer_ascii(old(handle)@) && old(handle)@.mail_type != MailType::Internationalized
                ==> buffer_ascii(final(handle)@),
    {
        let text: &str = self.text.as_str();
        if str_chars(text).len() == 0 {
            return Ok(());
        }
        let blocks = match partition(text) {
            Ok(b) => b,
            Err(e) => return Err(e),
        };
        let ghost ps = blocks@;
        let mut had_word = false;
        let mut i: usize = 0;
        while i < blocks.len()
            invariant
                ps == blocks@,
                parts_concat(ps) == self@,
                well_partitioned(ps),
                self@.len() > 0,
                first_unencodable(self@, 0) is None,
                i <= blocks.len(),
                handle.wf(),
                had_word ==> has_word(self@),
                had_word <==> exists|k: int| 0 <= k < i && #[trigger] ps[k] is VCHAR,
                (handle@, Ok::<(), EncodingError>(())) == spec_write_parts(
                    old(handle)@,
                    ps.take(i as int),
                ),
            decreases blocks.len() - i,
        {
            let block = blocks[i];
            proof {
                assert(part_ok(ps[i as int]));
                assert(ps.take(i + 1).drop_last() =~= ps.take(i as int));
                assert(ps.take(i + 1).last() == ps[i as int]);
            }
            match block {
                Partition::VCHAR(data) => {
                    proof {
                        assert(is_vchar_class(part_text(ps[i as int])[0]));
                        lemma_part_char_in_concat(ps, i as int, 0);
                    }
                    had_word = true;
                    let r = write_word(handle, data);
                    proof {
                        lemma_unit_ok(r);
                    }
                    match r {
                        Ok(()) => {},
                        Err(e) => {
                            proof {
                                lemma_write_parts_stop(old(handle)@, ps, i + 1);
                                if buffer_ascii(old(handle)@) && old(handle)@.mail_type
                                    != MailType::Internationalized {
                                    lemma_unstructured_ascii_mail(old(handle)@, ps);
                                }
                            }
                            return Err(e);
                        },
                    }
                },
                Partition::SPACE(data) => {
                    let r = write_space(handle, data);
                    proof {
                        lemma_unit_ok(r);
                    }
                    match r {
                        Ok(()) => {},
                        Err(e) => {
                            proof {
                                lemma_write_parts_stop(old(handle)@, ps, i + 1);
                                if buffer_ascii(old(handle)@) && old(handle)@.mail_type
                                    != MailType::Internationalized {
                                    lemma_unstructured_ascii_mail(old(handle)@, ps);
                                }
                            }
                            return Err(e);
                        },
                    }
                },
            }
            i = i + 1;
        }
        proof {
            assert(ps.take(i as int) =~= ps);
            if buffer_ascii(old(handle)@) && old(handle)@.mail_type != MailType::Internationalized {
                lemma_unstructured_ascii_mail(old(handle)@, ps);
            }
        }
        if had_word {
            Ok(())
        } else {
            Err(EncodingError::WhitespaceOnly)
        }
    }
}

} // verus!
