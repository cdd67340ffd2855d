//! Writers of encoded words (RFC 2047) and the encodings they use.
use vstd::prelude::*;

use crate::codec::encoder::{EncodeHeaderHandle, HeaderView, TokenView, buffer_ascii, lemma_writes_ascii};
use crate::grammar::{all_ascii, lemma_all_ascii_is_ascii_chars, spec_is_ascii};
use crate::grammar::encoded_word::{ECW_SEP_OVERHEAD, MAX_ECW_LEN};
use crate::utils::{str_chars, string_push};

verus! {

/// The encodings of an encoded word.
#[derive(Debug, Clone, Copy, Hash, PartialEq, Eq, Structural)]
pub enum EncodedWordEncoding {
    Base64,
    QuotedPrintable,
}

impl EncodedWordEncoding {
    pub open spec fn spec_acronym(self) -> Seq<char> {
        match self {
            EncodedWordEncoding::Base64 => seq!['B'],
            EncodedWordEncoding::QuotedPrintable => seq!['Q'],
        }
    }

    /// The acronym of the encoding used in an encoded word (`B` or `Q`).
    pub fn acronym(&self) -> (r: &'static str)
        ensures
            r@ == self.spec_acronym(),
    {
        match *self {
            EncodedWordEncoding::Base64 => {
                proof {
                    reveal_strlit("B");
                }
                "B"
            },
            EncodedWordEncoding::QuotedPrintable => {
                proof {
                    reveal_strlit("Q");
                }
                "Q"
            },
        }
    }
}

/// `ws` with `t` appended to its last element.
pub open spec fn append_last(ws: Seq<Seq<char>>, t: Seq<char>) -> Seq<Seq<char>> {
    ws.update(ws.len() - 1, ws.last() + t)
}

/// The start of an encoded word: `=?charset?encoding?`.
pub open spec fn ecw_prefix(charset: Seq<char>, encoding: EncodedWordEncoding) -> Seq<char> {
    seq!['=', '?'] + charset + seq!['?'] + encoding.spec_acronym() + seq!['?']
}

/// One write into an encoded word writer (`C` is the type of the chars).
pub enum Write<C> {
    /// an ascii char
    Ascii(C),
    /// the charset
    Charset,
    /// a separator between two encoded words
    Sep,
}

/// The writes of the chars of `s`, one after the other.
pub open spec fn char_ops(s: Seq<char>) -> Seq<Write<char>> {
    s.map_values(|c: char| Write::Ascii(c))
}

/// The writes starting an encoded word: `=?`, the charset, `?`, the
/// encoding's acronym and `?`.
pub open spec fn start_ops(encoding: EncodedWordEncoding) -> Seq<Write<char>> {
    seq![Write::Ascii('='), Write::Ascii('?'), Write::Charset, Write::Ascii('?')] + char_ops(
        encoding.spec_acronym(),
    ) + seq![Write::Ascii('?')]
}

/// The writes ending an encoded word: `?=`.
pub open spec fn end_ops() -> Seq<Write<char>> {
    seq![Write::Ascii('?'), Write::Ascii('=')]
}

/// The state of a header after the writes `ops` of a writer into it,
/// starting at `v`: a char as `write_char` writes it, the charset `cs` as
/// `write_str` writes it and a separator as folding whitespace (errors of
/// the writes are ignored).
pub open spec fn replay(v: HeaderView, cs: Seq<char>, ops: Seq<Write<char>>) -> HeaderView
    decreases ops.len(),
{
    if ops.len() == 0 {
        v
    } else {
        let w = replay(v, cs, ops.drop_last());
        match ops.last() {
            Write::Ascii(c) => w.write_one(c).0,
            Write::Charset => w.write_with(TokenView::NowStr, cs).0,
            Write::Sep => w.fws(),
        }
    }
}

/// Every char the writes `ops` write on their own is ascii.
pub open spec fn ops_ascii(ops: Seq<Write<char>>) -> bool {
    forall|i: int| 0 <= i < ops.len() ==> (#[trigger] ops[i] matches Write::Ascii(c) ==> spec_is_ascii(c))
}

/// Replaying writes of ascii chars and an ascii charset keeps the buffer
/// ascii.
pub proof fn lemma_replay_ascii(v: HeaderView, cs: Seq<char>, ops: Seq<Write<char>>)
    requires
        buffer_ascii(v),
        forall|j: int| 0 <= j < cs.len() ==> spec_is_ascii(#[trigger] cs[j]),
        ops_ascii(ops),
    ensures
        buffer_ascii(replay(v, cs, ops)),
    decreases ops.len(),
{
    if ops.len() > 0 {
        assert forall|i: int| 0 <= i < ops.drop_last().len() implies (#[trigger] ops.drop_last()[i] matches Write::Ascii(c) ==> spec_is_ascii(c)) by {
            assert(ops.drop_last()[i] == ops[i]);
        }
        lemma_replay_ascii(v, cs, ops.drop_last());
        let w = replay(v, cs, ops.drop_last());
        let c = match ops.last() {
            Write::Ascii(c) => c,
            _ => ' ',
        };
        assert(ops.last() == ops[ops.len() - 1]);
        assert(spec_is_ascii(' '));
        lemma_writes_ascii(w, TokenView::NowStr, cs, c);
    }
}

/// The writes starting and ending an encoded word are ascii.
pub proof fn lemma_start_end_ops_ascii(enc: EncodedWordEncoding)
    ensures
        ops_ascii(start_ops(enc)),
        ops_ascii(end_ops()),
{
    assert(spec_is_ascii('=') && spec_is_ascii('?') && spec_is_ascii('Q') && spec_is_ascii('B'));
    let a = enc.spec_acronym();
    assert(char_ops(a)[0] == Write::Ascii(a[0]));
    assert(start_ops(enc) =~= seq![Write::Ascii('='), Write::Ascii('?'), Write::Charset, Write::Ascii('?'), Write::Ascii(a[0]), Write::Ascii('?')]);
}

/// The writes of ascii chars are ascii.
pub proof fn lemma_char_ops_ascii(s: Seq<char>)
    requires
        forall|j: int| 0 <= j < s.len() ==> spec_is_ascii(#[trigger] s[j]),
    ensures
        ops_ascii(char_ops(s)),
{
    assert forall|i: int| 0 <= i < char_ops(s).len() implies (#[trigger] char_ops(s)[i] matches Write::Ascii(c) ==> spec_is_ascii(c)) by {
        assert(char_ops(s)[i] == Write::Ascii(s[i]));
    }
}

/// Writes of ascii chars followed by writes of ascii chars.
pub proof fn lemma_ops_ascii_concat(a: Seq<Write<char>>, b: Seq<Write<char>>)
    requires
        ops_ascii(a),
        ops_ascii(b),
    ensures
        ops_ascii(a + b),
{
    assert forall|i: int| 0 <= i < (a + b).len() implies (#[trigger] (a + b)[i] matches Write::Ascii(c) ==> spec_is_ascii(c)) by {
        if i < a.len() {
            assert((a + b)[i] == a[i]);
        } else {
            assert((a + b)[i] == b[i - a.len()]);
        }
    }
}

/// A target for encoded words.
///
/// Its model is the sequence of the words written so far: a separator
/// starts a new word, everything else is appended to the last word.
pub trait EncodedWordWriter {
    /// the words written so far, never empty
    spec fn words(&self) -> Seq<Seq<char>>;

    /// the charset written into each encoded word
    spec fn spec_charset(&self) -> Seq<char>;

    spec fn spec_encoding(&self) -> EncodedWordEncoding;

    spec fn spec_max_payload_len(&self) -> nat;

    /// the writer's own invariant
    spec fn writer_ok(&self) -> bool;

    /// the writes made so far, in order
    spec fn log(&self) -> Seq<Write<char>>;

    /// the header the writer writes into, as it was before the first write
    /// (`None` for a writer which collects the words in memory)
    spec fn origin(&self) -> Option<HeaderView>;

    fn write_char(&mut self, ch: char)
        requires
            old(self).writer_ok(),
            old(self).words().len() > 0,
            spec_is_ascii(ch),
        ensures
            final(self).writer_ok(),
            final(self).words() == append_last(old(self).words(), seq![ch]),
            final(self).spec_charset() == old(self).spec_charset(),
            final(self).spec_encoding() == old(self).spec_encoding(),
            final(self).spec_max_payload_len() == old(self).spec_max_payload_len(),
            final(self).origin() == old(self).origin(),
            final(self).log() == old(self).log().push(Write::Ascii(ch)),
    ;

    fn write_charset(&mut self)
        requires
            old(self).writer_ok(),
            old(self).words().len() > 0,
        ensures
            final(self).writer_ok(),
            final(self).words() == append_last(old(self).words(), old(self).spec_charset()),
            final(self).spec_charset() == old(self).spec_charset(),
            final(self).spec_encoding() == old(self).spec_encoding(),
            final(self).spec_max_payload_len() == old(self).spec_max_payload_len(),
            final(self).origin() == old(self).origin(),
            final(self).log() == old(self).log().push(Write::Charset),
    ;

    fn encoding(&self) -> (r: EncodedWordEncoding)
        ensures
            r == self.spec_encoding(),
    ;

    fn write_ecw_seperator(&mut self)
        requires
            old(self).writer_ok(),
            old(self).words().len() > 0,
        ensures
            final(self).writer_ok(),
            final(self).words() == old(self).words().push(Seq::empty()),
            final(self).spec_charset() == old(self).spec_charset(),
            final(self).spec_encoding() == old(self).spec_encoding(),
            final(self).spec_max_payload_len() == old(self).spec_max_payload_len(),
            final(self).origin() == old(self).origin(),
            final(self).log() == old(self).log().push(Write::Sep),
    ;

    /// The maximal length of the payload (the encoded data) of one
    /// encoded word; writing never changes it.
    fn max_payload_len(&self) -> (r: usize)
        requires
            self.writer_ok(),
        ensures
            r == self.spec_max_payload_len(),
    ;

    /// writes `=?charset?encoding?`
    fn write_ecw_start(&mut self)
        requires
            old(self).writer_ok(),
            old(self).words().len() > 0,
        ensures
            final(self).writer_ok(),
            final(self).words() == append_last(
                old(self).words(),
                ecw_prefix(old(self).spec_charset(), old(self).spec_encoding()),
            ),
            final(self).spec_charset() == old(self).spec_charset(),
            final(self).spec_encoding() == old(self).spec_encoding(),
            final(self).spec_max_payload_len() == old(self).spec_max_payload_len(),
            final(self).origin() == old(self).origin(),
            final(self).log() == old(self).log() + start_ops(old(self).spec_encoding()),
    {
        let ghost w0 = self.words();
        let ghost l0 = self.log();
        let ghost cs = self.spec_charset();
        self.write_char('=');
        self.write_char('?');
        self.write_charset();
        self.write_char('?');
        let acronym = self.encoding().acronym();
        self.write_str(acronym);
        self.write_char('?');
        proof {
            let p = ecw_prefix(cs, self.spec_encoding());
            assert(self.words() =~= append_last(w0, p)) by {
                assert(w0.last() + seq!['='] + seq!['?'] + cs + seq!['?'] + acronym@ + seq!['?']
                    =~= w0.last() + p);
            }
            assert(self.log() =~= l0 + start_ops(self.spec_encoding()));
        }
    }

    /// writes `?=`
    fn write_ecw_end(&mut self)
        requires
            old(self).writer_ok(),
            old(self).words().len() > 0,
        ensures
            final(self).writer_ok(),
            final(self).words() == append_last(old(self).words(), seq!['?', '=']),
            final(self).spec_charset() == old(self).spec_charset(),
            final(self).spec_encoding() == old(self).spec_encoding(),
            final(self).spec_max_payload_len() == old(self).spec_max_payload_len(),
            final(self).origin() == old(self).origin(),
            final(self).log() == old(self).log() + end_ops(),
    {
        let ghost w0 = self.words();
        let ghost l0 = self.log();
        self.write_char('?');
        self.write_char('=');
        proof {
            assert(self.words() =~= append_last(w0, seq!['?', '='])) by {
                assert(w0.last() + seq!['?'] + seq!['='] =~= w0.last() + seq!['?', '=']);
            }
            assert(self.log() =~= l0 + end_ops());
        }
    }

    /// ends the current encoded word and starts the next one
    fn start_next_encoded_word(&mut self)
        requires
            old(self).writer_ok(),
            old(self).words().len() > 0,
        ensures
            final(self).writer_ok(),
            final(self).words() == append_last(old(self).words(), seq!['?', '=']).push(
                ecw_prefix(old(self).spec_charset(), old(self).spec_encoding()),
            ),
            final(self).spec_charset() == old(self).spec_charset(),
            final(self).spec_encoding() == old(self).spec_encoding(),
            final(self).spec_max_payload_len() == old(self).spec_max_payload_len(),
            final(self).origin() == old(self).origin(),
            final(self).log() == old(self).log() + end_ops() + seq![Write::Sep] + start_ops(
                old(self).spec_encoding(),
            ),
    {
        let ghost w0 = self.words();
        self.write_ecw_end();
        self.write_ecw_seperator();
        self.write_ecw_start();
        proof {
            let p = ecw_prefix(self.spec_charset(), self.spec_encoding());
            assert(Seq::<char>::empty() + p =~= p);
            assert(self.log() =~= old(self).log() + end_ops() + seq![Write::Sep] + start_ops(
                old(self).spec_encoding(),
            ));
        }
    }

    /// writes the ascii chars of `s`
    fn write_str(&mut self, s: &str)
        requires
            old(self).writer_ok(),
            old(self).words().len() > 0,
            all_ascii(s@),
        ensures
            final(self).writer_ok(),
            final(self).words() == append_last(old(self).words(), s@),
            final(self).spec_charset() == old(self).spec_charset(),
            final(self).spec_encoding() == old(self).spec_encoding(),
            final(self).spec_max_payload_len() == old(self).spec_max_payload_len(),
            final(self).origin() == old(self).origin(),
            final(self).log() == old(self).log() + char_ops(s@),
    {
        let ghost w0 = self.words();
        let ghost l0 = self.log();
        let chars = str_chars(s);
        let mut i: usize = 0;
        proof {
            assert(w0.last() + s@.take(0) =~= w0.last());
            assert(append_last(w0, s@.take(0)) =~= w0);
            assert(char_ops(s@.take(0)) =~= Seq::<Write<char>>::empty());
            assert(l0 + Seq::<Write<char>>::empty() =~= l0);
        }
        while i < chars.len()
            invariant
                chars@ == s@,
                all_ascii(s@),
                i <= chars.len(),
                w0.len() > 0,
                self.writer_ok(),
                self.words() == append_last(w0, s@.take(i as int)),
                self.spec_charset() == old(self).spec_charset(),
                self.spec_encoding() == old(self).spec_encoding(),
                self.spec_max_payload_len() == old(self).spec_max_payload_len(),
                l0 == old(self).log(),
                self.log() == l0 + char_ops(s@.take(i as int)),
                self.origin() == old(self).origin(),
            decreases chars.len() - i,
        {
            let ghost before = self.words();
            self.write_char(chars[i]);
            proof {
                assert(w0.last() + s@.take(i + 1) =~= w0.last() + s@.take(i as int) + seq![s@[i as int]]);
                assert(char_ops(s@.take(i + 1)) =~= char_ops(s@.take(i as int)).push(
                    Write::Ascii(s@[i as int]),
                ));
            }
            i = i + 1;
        }
        proof {
            assert(s@.take(i as int) =~= s@);
        }
    }
}

/// A writer collecting the encoded words in strings.
pub struct VecWriter<'a> {
    data: Vec<String>,
    charset: &'a str,
    charset_len: usize,
    encoding: EncodedWordEncoding,
    writes: Ghost<Seq<Write<char>>>,
}

impl<'a> VecWriter<'a> {
    /// A writer with one empty word; `charset` must be ascii and leave
    /// room for a payload in an encoded word.
    pub fn new(charset: &'a str, encoding: EncodedWordEncoding) -> (r: Self)
        requires
            all_ascii(charset@),
            charset@.len() + ECW_SEP_OVERHEAD + 1 <= MAX_ECW_LEN,
        ensures
            r.writer_ok(),
            r.words() == seq![Seq::<char>::empty()],
            r.spec_charset() == charset@,
            r.spec_encoding() == encoding,
            r.spec_max_payload_len() == MAX_ECW_LEN - ECW_SEP_OVERHEAD - charset@.len() - 1,
            r.log() == Seq::<Write<char>>::empty(),
            r.origin() is None,
    {
        let mut data: Vec<String> = Vec::new();
        data.push(String::new());
        let charset_len = str_chars(charset).len();
        let r = VecWriter { data, charset, charset_len, encoding, writes: Ghost(Seq::empty()) };
        proof {
            assert(r.words() =~= seq![Seq::<char>::empty()]);
        }
        r
    }

    /// The words written so far.
    pub fn data(&self) -> (r: &[String])
        ensures
            r@.len() == self.words().len(),
            forall|i: int| 0 <= i < r@.len() ==> #[trigger] r@[i]@ == self.words()[i],
    {
        self.data.as_slice()
    }
}

impl<'a> EncodedWordWriter for VecWriter<'a> {
    closed spec fn words(&self) -> Seq<Seq<char>> {
        self.data@.map_values(|s: String| s@)
    }

    closed spec fn log(&self) -> Seq<Write<char>> {
        self.writes@
    }

    closed spec fn origin(&self) -> Option<HeaderView> {
        None
    }

    closed spec fn spec_charset(&self) -> Seq<char> {
        self.charset@
    }

    closed spec fn spec_encoding(&self) -> EncodedWordEncoding {
        self.encoding
    }

    closed spec fn spec_max_payload_len(&self) -> nat {
        (MAX_ECW_LEN - ECW_SEP_OVERHEAD - self.charset_len - 1) as nat
    }

    closed spec fn writer_ok(&self) -> bool {
        &&& self.charset_len == self.charset@.len()
        &&& self.charset_len + ECW_SEP_OVERHEAD + 1 <= MAX_ECW_LEN
        &&& self.data@.len() > 0
    }

    fn write_char(&mut self, ch: char) {
        let last = self.data.len() - 1;
        let mut s = self.data[last].clone();
        let ghost before = s@;
        string_push(&mut s, ch);
        self.data.set(last, s);
        self.writes = Ghost(self.writes@.push(Write::Ascii(ch)));
        proof {
            let ws = old(self).words();
            assert(ws.last() == before);
            assert(before + seq![ch] =~= before.push(ch));
            assert(self.words() =~= append_last(ws, seq![ch]));
        }
    }

    fn write_charset(&mut self) {
        let cs = self.charset;
        let chars = str_chars(cs);
        let ghost w0 = self.words();
        let mut i: usize = 0;
        proof {
            assert(w0.last() + cs@.take(0) =~= w0.last());
            assert(append_last(w0, cs@.take(0)) =~= w0);
        }
        while i < chars.len()
            invariant
                chars@ == cs@,
                cs == self.charset,
                i <= chars.len(),
                w0.len() > 0,
                self.writer_ok(),
                self.words() == append_last(w0, cs@.take(i as int)),
                self.charset == old(self).charset,
                self.charset_len == old(self).charset_len,
                self.encoding == old(self).encoding,
                self.writes == old(self).writes,
            decreases chars.len() - i,
        {
            let last = self.data.len() - 1;
            let mut s = self.data[last].clone();
            let ghost prev = self.words();
            let ghost before = s@;
            string_push(&mut s, chars[i]);
            self.data.set(last, s);
            proof {
                assert(prev.last() == before);
                assert(before + seq![chars@[i as int]] =~= before.push(chars@[i as int]));
                assert(self.words() =~= append_last(prev, seq![chars@[i as int]]));
                assert(w0.last() + cs@.take(i + 1) =~= w0.last() + cs@.take(i as int) + seq![cs@[i as int]]);
                assert(self.words() =~= append_last(w0, cs@.take(i + 1)));
            }
            i = i + 1;
        }
        proof {
            assert(cs@.take(i as int) =~= cs@);
        }
        self.writes = Ghost(self.writes@.push(Write::Charset));
    }

    fn encoding(&self) -> (r: EncodedWordEncoding) {
        self.encoding
    }

    fn write_ecw_seperator(&mut self) {
        self.writes = Ghost(self.writes@.push(Write::Sep));
        self.data.push(String::new());
        proof {
            assert(self.words() =~= old(self).words().push(Seq::empty()));
        }
    }

    fn max_payload_len(&self) -> (r: usize) {
        MAX_ECW_LEN - ECW_SEP_OVERHEAD - self.charset_len - 1
    }
}

/// A writer writing encoded words into a header: a separator is written
/// as folding whitespace.
///
/// Errors of the header handle (such as a too long line) are ignored
/// while writing, so `words` is what was asked to be written.
pub struct WriterWrapper<'a> {
    charset: &'a str,
    charset_len: usize,
    encoding: EncodedWordEncoding,
    encoder_handle: EncodeHeaderHandle,
    written: Ghost<Seq<Seq<char>>>,
    writes: Ghost<Seq<Write<char>>>,
    start: Ghost<HeaderView>,
}

impl<'a> WriterWrapper<'a> {
    /// A writer writing into `encoder`; `charset` must be ascii and leave
    /// room for a payload in an encoded word.
    pub fn new(charset: &'a str, encoding: EncodedWordEncoding, encoder: EncodeHeaderHandle) -> (r:
        Self)
        requires
            all_ascii(charset@),
            charset@.len() + ECW_SEP_OVERHEAD + 1 <= MAX_ECW_LEN,
            encoder.wf(),
        ensures
            r.writer_ok(),
            r.words() == seq![Seq::<char>::empty()],
            r.spec_charset() == charset@,
            r.spec_encoding() == encoding,
            r.spec_max_payload_len() == MAX_ECW_LEN - ECW_SEP_OVERHEAD - charset@.len() - 1,
            r.log() == Seq::<Write<char>>::empty(),
            r.origin() == Some(encoder@),
    {
        let charset_len = str_chars(charset).len();
        let ghost first: Seq<Seq<char>> = seq![Seq::empty()];
        let ghost start = encoder@;
        WriterWrapper {
            charset,
            charset_len,
            encoding,
            encoder_handle: encoder,
            written: Ghost(first),
            writes: Ghost(Seq::empty()),
            start: Ghost(start),
        }
    }

    /// The header handle written to.
    pub fn into_handle(self) -> (r: EncodeHeaderHandle)
        requires
            self.writer_ok(),
        ensures
            r.wf(),
            self.origin() matches Some(v) && r@ == replay(v, self.spec_charset(), self.log()),
    {
        self.encoder_handle
    }
}

impl<'a> EncodedWordWriter for WriterWrapper<'a> {
    closed spec fn words(&self) -> Seq<Seq<char>> {
        self.written@
    }

    closed spec fn log(&self) -> Seq<Write<char>> {
        self.writes@
    }

    closed spec fn origin(&self) -> Option<HeaderView> {
        Some(self.start@)
    }

    closed spec fn spec_charset(&self) -> Seq<char> {
        self.charset@
    }

    closed spec fn spec_encoding(&self) -> EncodedWordEncoding {
        self.encoding
    }

    closed spec fn spec_max_payload_len(&self) -> nat {
        (MAX_ECW_LEN - ECW_SEP_OVERHEAD - self.charset_len - 1) as nat
    }

    closed spec fn writer_ok(&self) -> bool {
        &&& self.charset_len == self.charset@.len()
        &&& self.charset_len + ECW_SEP_OVERHEAD + 1 <= MAX_ECW_LEN
        &&& all_ascii(self.charset@)
        &&& self.encoder_handle.wf()
        &&& self.encoder_handle@ == replay(self.start@, self.charset@, self.writes@)
    }

    fn write_char(&mut self, ch: char) {
        let _ = self.encoder_handle.write_char(ch);
        self.written = Ghost(append_last(self.written@, seq![ch]));
        self.writes = Ghost(self.writes@.push(Write::Ascii(ch)));
        proof {
            assert(self.writes@.drop_last() =~= old(self).writes@);
        }
    }

    fn write_charset(&mut self) {
        proof {
            lemma_all_ascii_is_ascii_chars(self.charset@);
        }
        let r = self.encoder_handle.write_str(self.charset);
        self.written = Ghost(append_last(self.written@, self.charset@));
        self.writes = Ghost(self.writes@.push(Write::Charset));
        proof {
            assert(self.writes@.drop_last() =~= old(self).writes@);
        }
    }

    fn encoding(&self) -> (r: EncodedWordEncoding) {
        self.encoding
    }

    fn write_ecw_seperator(&mut self) {
        self.encoder_handle.write_fws();
        self.written = Ghost(self.written@.push(Seq::empty()));
        self.writes = Ghost(self.writes@.push(Write::Sep));
        proof {
            assert(self.writes@.drop_last() =~= old(self).writes@);
        }
    }

    fn max_payload_len(&self) -> (r: usize) {
        MAX_ECW_LEN - ECW_SEP_OVERHEAD - self.charset_len - 1
    }
}

} // verus!
