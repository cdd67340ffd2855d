//! A phrase: one or more words separated by whitespace.
use vstd::prelude::*;

use crate::codec::encoder::{EncodeHeaderHandle, HeaderView};
use crate::components::cfws::{CFWS, FWS};
use crate::components::unstructured::has_word;
use crate::components::utils::text_partition::{
    Partition, first_unencodable, is_space_class, is_vchar_class, part_ok, part_text,
    parts_concat, partition, well_partitioned,
};
use crate::components::word::{Word, do_encode_word, spec_encode_word};
use crate::error::EncodingError;
use crate::grammar::encoded_word::EncodedWordContext;

verus! {

/// The texts of the runs of visible chars, in order.
pub open spec fn vchar_texts<'a>(ps: Seq<Partition<'a>>) -> Seq<Seq<char>>
    decreases ps.len(),
{
    if ps.len() == 0 {
        Seq::empty()
    } else if ps.last() is VCHAR {
        vchar_texts(ps.drop_last()).push(part_text(ps.last()))
    } else {
        vchar_texts(ps.drop_last())
    }
}

/// The words of a phrase made of the runs `ps`: one per run of visible
/// chars, padded by folding whitespace where whitespace was before or
/// (for the last word) after it.
pub open spec fn words_of<'a>(ws: Seq<Word>, ps: Seq<Partition<'a>>) -> bool {
    let texts = vchar_texts(ps);
    &&& ws.len() == texts.len()
    &&& forall|k: int| 0 <= k < ws.len() ==> (#[trigger] ws[k]).input@ == texts[k]
    &&& forall|k: int|
        0 <= k < ws.len() ==> ((#[trigger] ws[k]).left_padding is Some <==> (k > 0 || ps[0] is SPACE))
    &&& forall|k: int|
        0 <= k < ws.len() ==> ((#[trigger] ws[k]).right_padding is Some <==> (k == ws.len() - 1
            && ps.last() is SPACE))
}

/// The words made of the runs `ps[0..i)`, before a right padding is
/// given to the last one; `gap` tells whether the last run was whitespace.
pub open spec fn words_of_prefix<'a>(ws: Seq<Word>, ps: Seq<Partition<'a>>, i: int, gap: bool) -> bool {
    let texts = vchar_texts(ps.take(i));
    &&& 0 <= i <= ps.len()
    &&& ws.len() == texts.len()
    &&& forall|k: int| 0 <= k < ws.len() ==> (#[trigger] ws[k]).input@ == texts[k]
    &&& forall|k: int|
        0 <= k < ws.len() ==> ((#[trigger] ws[k]).left_padding is Some <==> (k > 0 || ps[0] is SPACE))
    &&& forall|k: int| 0 <= k < ws.len() ==> (#[trigger] ws[k]).right_padding is None
    &&& gap == (i > 0 && ps[i - 1] is SPACE)
}

proof fn lemma_words_of_prefix_step<'a>(before: Seq<Word>, after: Seq<Word>, ps: Seq<Partition<'a>>, i: int)
    requires
        0 <= i < ps.len(),
        well_partitioned(ps),
        words_of_prefix(before, ps, i, i > 0 && ps[i - 1] is SPACE),
        ps[i] is VCHAR ==> after.len() == before.len() + 1 && after.drop_last() == before
            && after.last().input@ == part_text(ps[i]) && (after.last().left_padding is Some <==> (i > 0 && ps[i - 1] is SPACE))
            && after.last().right_padding is None,
        ps[i] is SPACE ==> after == before,
    ensures
        words_of_prefix(after, ps, i + 1, ps[i] is SPACE),
{
    let t0 = vchar_texts(ps.take(i));
    let t1 = vchar_texts(ps.take(i + 1));
    assert(ps.take(i + 1).drop_last() =~= ps.take(i));
    assert(ps.take(i + 1).last() == ps[i]);
    if ps[i] is VCHAR {
        assert(t1 == t0.push(part_text(ps[i])));
        assert forall|k: int| 0 <= k < after.len() implies (#[trigger] after[k]).input@ == t1[k] by {
            if k < before.len() {
                assert(after[k] == before[k]);
            }
        }
        assert forall|k: int| 0 <= k < after.len() implies ((#[trigger] after[k]).left_padding is Some
            <==> (k > 0 || ps[0] is SPACE)) by {
            if k < before.len() {
                assert(after[k] == before[k]);
            } else {
                if i > 0 {
                    if before.len() == 0 {
                        // the runs before `i` hold no word, so they are a single whitespace run
                        lemma_no_words_no_vchar(ps.take(i));
                        assert(ps.take(i)[0] == ps[0]);
                        if i > 1 {
                            assert(ps.take(i)[1] == ps[1]);
                            assert((ps[0] is VCHAR) != (ps[1] is VCHAR));
                        }
                        assert(ps[i - 1] is SPACE) by {
                            assert(ps.take(i)[i - 1] == ps[i - 1]);
                        }
                    } else {
                        assert((ps[i - 1] is VCHAR) != (ps[i] is VCHAR));
                    }
                } else {
                    assert(before.len() == 0);
                }
            }
        }
        assert forall|k: int| 0 <= k < after.len() implies (#[trigger] after[k]).right_padding is None by {
            if k < before.len() {
                assert(after[k] == before[k]);
            }
        }
    } else {
        assert(t1 == t0);
    }
}

proof fn lemma_vchar_texts_nonempty<'a>(ps: Seq<Partition<'a>>)
    ensures
        vchar_texts(ps).len() > 0 ==> exists|j: int| 0 <= j < ps.len() && (#[trigger] ps[j]) is VCHAR,
    decreases ps.len(),
{
    if ps.len() > 0 {
        lemma_vchar_texts_nonempty(ps.drop_last());
        if ps.last() is VCHAR {
            assert(ps[ps.len() - 1] is VCHAR);
        } else if vchar_texts(ps).len() > 0 {
            let j = choose|j: int| 0 <= j < ps.drop_last().len() && (#[trigger] ps.drop_last()[j]) is VCHAR;
            assert(ps[j] == ps.drop_last()[j]);
        }
    }
}

proof fn lemma_no_words_no_vchar<'a>(ps: Seq<Partition<'a>>)
    requires
        vchar_texts(ps).len() == 0,
    ensures
        forall|i: int| 0 <= i < ps.len() ==> (#[trigger] ps[i]) is SPACE,
    decreases ps.len(),
{
    if ps.len() > 0 {
        lemma_no_words_no_vchar(ps.drop_last());
        assert forall|i: int| 0 <= i < ps.len() implies (#[trigger] ps[i]) is SPACE by {
            if i < ps.len() - 1 {
                assert(ps.drop_last()[i] == ps[i]);
            }
        }
    }
}

proof fn lemma_words_of_finish<'a>(before: Seq<Word>, after: Seq<Word>, ps: Seq<Partition<'a>>, gap: bool)
    requires
        words_of_prefix(before, ps, ps.len() as int, gap),
        before.len() > 0,
        ps.take(ps.len() as int) == ps,
        gap ==> after.len() == before.len() && after.drop_last() == before.drop_last()
            && after.last() == (Word { right_padding: Some(CFWS::SingleFws(FWS)), ..before.last() }),
        !gap ==> after == before,
    ensures
        words_of(after, ps),
        after.len() > 0,
{
    assert forall|k: int| 0 <= k < after.len() implies (#[trigger] after[k]).input@ == vchar_texts(ps)[k]
        && ((after[k]).left_padding is Some <==> (k > 0 || ps[0] is SPACE))
        && ((after[k]).right_padding is Some <==> (k == after.len() - 1 && ps.last() is SPACE)) by {
        if k < after.len() - 1 {
            if gap {
                assert(after[k] == after.drop_last()[k]);
                assert(before[k] == before.drop_last()[k]);
            }
        } else {
            assert(ps.last() == ps[ps.len() - 1]);
            if gap {
                assert(after[k] == after.last());
                assert(before[k] == before.last());
            }
        }
    }
}

/// A phrase, e.g. the display name of a mailbox.
#[derive(Debug, Clone, Eq, PartialEq, Hash)]
pub struct Phrase(pub Vec<Word>);

proof fn lemma_has_word_of_vchar_part<'a>(ps: Seq<Partition<'a>>, i: int)
    requires
        well_partitioned(ps),
        0 <= i < ps.len(),
        ps[i] is VCHAR,
    ensures
        has_word(parts_concat(ps)),
    decreases ps.len(),
{
    assert(part_ok(ps[i]));
    let pre = parts_concat(ps.drop_last());
    let t = part_text(ps[i]);
    assert(is_vchar_class(t[0]));
    if i == ps.len() - 1 {
        assert(parts_concat(ps)[pre.len() as int] == t[0]);
    } else {
        let qs = ps.drop_last();
        assert(well_partitioned(qs)) by {
            assert forall|j: int| 0 <= j < qs.len() implies #[trigger] part_ok(qs[j]) by {
                assert(qs[j] == ps[j]);
            }
            assert forall|j: int| 0 <= j < qs.len() - 1 implies (#[trigger] qs[j] is VCHAR) != (
            qs[j + 1] is VCHAR) by {
                assert(qs[j] == ps[j] && qs[j + 1] == ps[j + 1]);
            }
        }
        assert(qs[i] == ps[i]);
        lemma_has_word_of_vchar_part(qs, i);
        let k = choose|k: int| 0 <= k < pre.len() && is_vchar_class(#[trigger] pre[k]);
        assert(parts_concat(ps)[k] == pre[k]);
    }
}

proof fn lemma_no_vchar_part_no_word<'a>(ps: Seq<Partition<'a>>)
    requires
        well_partitioned(ps),
        forall|i: int| 0 <= i < ps.len() ==> (#[trigger] ps[i]) is SPACE,
    ensures
        !has_word(parts_concat(ps)),
    decreases ps.len(),
{
    if ps.len() > 0 {
        let qs = ps.drop_last();
        assert(well_partitioned(qs)) by {
            assert forall|j: int| 0 <= j < qs.len() implies #[trigger] part_ok(qs[j]) by {
                assert(qs[j] == ps[j]);
            }
            assert forall|j: int| 0 <= j < qs.len() - 1 implies (#[trigger] qs[j] is VCHAR) != (
            qs[j + 1] is VCHAR) by {
                assert(qs[j] == ps[j] && qs[j + 1] == ps[j + 1]);
            }
        }
        assert forall|i: int| 0 <= i < qs.len() implies (#[trigger] qs[i]) is SPACE by {
            assert(qs[i] == ps[i]);
        }
        lemma_no_vchar_part_no_word(qs);
        let pre = parts_concat(qs);
        let t = part_text(ps.last());
        assert(ps.last() == ps[ps.len() - 1]);
        assert(part_ok(ps.last()));
        assert forall|k: int| 0 <= k < parts_concat(ps).len() implies !is_vchar_class(
            #[trigger] parts_concat(ps)[k],
        ) by {
            if k >= pre.len() {
                assert(parts_concat(ps)[k] == t[k - pre.len()]);
                assert(is_space_class(t[k - pre.len()]));
            } else {
                assert(parts_concat(ps)[k] == pre[k]);
            }
        }
    }
}

/// The words of the runs `blocks`, without a right padding, and the
/// padding for the last word if the last run is whitespace.
fn words_from_parts<'a>(blocks: &Vec<Partition<'a>>) -> (r: (Vec<Word>, Option<CFWS>))
    requires
        well_partitioned(blocks@),
    ensures
        words_of_prefix(r.0@, blocks@, blocks@.len() as int, r.1 is Some),
        r.1 is Some ==> r.1 == Some(CFWS::SingleFws(FWS)),
{
    let ghost ps = blocks@;
    let mut last_gap: Option<CFWS> = None;
    let mut words: Vec<Word> = Vec::new();
    let mut i: usize = 0;
    proof {
        assert(ps.take(0) =~= Seq::<Partition<'a>>::empty());
    }
    while i < blocks.len()
        invariant
            ps == blocks@,
            well_partitioned(ps),
            i <= blocks.len(),
            words_of_prefix(words@, ps, i as int, last_gap is Some),
            last_gap is Some ==> last_gap == Some(CFWS::SingleFws(FWS)),
        decreases blocks.len() - i,
    {
        let ghost before = words@;
        let ghost gap = last_gap is Some;
        match blocks[i] {
            Partition::VCHAR(word) => {
                let mut w = Word::from_input(word);
                match last_gap {
                    Some(fws) => {
                        w.pad_left(fws);
                    },
                    None => {},
                }
                last_gap = None;
                words.push(w);
                proof {
                    assert(words@.drop_last() =~= before);
                    assert(part_text(ps[i as int]) == word@);
                    assert(words@.last().left_padding is Some <==> gap);
                }
            },
            Partition::SPACE(_gap) => {
                last_gap = Some(CFWS::SingleFws(FWS));
            },
        }
        proof {
            lemma_words_of_prefix_step(before, words@, ps, i as int);
        }
        i = i + 1;
    }
    (words, last_gap)
}

impl Phrase {
    /// The phrase of the words of `input`: its runs of visible chars,
    /// padded by folding whitespace where it had whitespace.
    ///
    /// Fails with `NotEncodable` on a char which is neither visible nor
    /// whitespace and with `WhitespaceOnly` if there is no word.
    pub fn from_input(input: &str) -> (r: Result<Self, EncodingError>)
        ensures
            first_unencodable(input@, 0) matches Some(ch) ==> r == Err::<Self, EncodingError>(
                EncodingError::NotEncodable(ch),
            ),
            first_unencodable(input@, 0) is None && !has_word(input@) ==> r == Err::<
                Self,
                EncodingError,
            >(EncodingError::WhitespaceOnly),
            r matches Ok(p) ==> p.0@.len() > 0 && exists|ps: Seq<Partition>|
                parts_concat(ps) == input@ && well_partitioned(ps) && words_of(p.0@, ps),
    {
        let blocks = match partition(input) {
            Ok(b) => b,
            Err(e) => return Err(e),
        };
        let ghost ps = blocks@;
        let (mut words, last_gap) = words_from_parts(&blocks);
        proof {
            assert(ps.take(ps.len() as int) =~= ps);
        }
        if words.len() == 0 {
            proof {
                lemma_no_words_no_vchar(ps);
                lemma_no_vchar_part_no_word(ps);
            }
            return Err(EncodingError::WhitespaceOnly);
        }
        proof {
            lemma_vchar_texts_nonempty(ps);
            if words@.len() > 0 {
                let j = choose|j: int| 0 <= j < ps.len() && (#[trigger] ps[j]) is VCHAR;
                lemma_has_word_of_vchar_part(ps, j);
            }
        }
        let ghost before = words@;
        match last_gap {
            Some(right_padding) => {
                let mut w = match words.pop() {
                    Some(w) => w,
                    None => vstd::pervasive::unreached(),
                };
                proof {
                    assert(w == before.last());
                }
                w.pad_right(right_padding);
                words.push(w);
                proof {
                    assert(words@.drop_last() =~= before.drop_last());
                }
            },
            None => {},
        }
        proof {
            lemma_words_of_finish(before, words@, ps, last_gap is Some);
        }
        Ok(Phrase(words))
    }

    /// Writes the words one after the other, each as encoded words where
    /// it is not a plain word, stopping at the first error.
    pub fn encode(&self, handle: &mut EncodeHeaderHandle) -> (r: Result<(), EncodingError>)
        requires
            old(handle).wf(),
        ensures
            final(handle).wf(),
            (final(handle)@, r) == spec_encode_words(old(handle)@, self.0@),
    {
        let mut i: usize = 0;
        while i < self.0.len()
            invariant
                i <= self.0.len(),
                handle.wf(),
                (handle@, Ok::<(), EncodingError>(())) == spec_encode_words(
                    old(handle)@,
                    self.0@.take(i as int),
                ),
            decreases self.0.len() - i,
        {
            let ghost before = handle@;
            proof {
                assert(self.0@.take(i + 1).drop_last() =~= self.0@.take(i as int));
            }
            match do_encode_word(&self.0[i], handle, Some(EncodedWordContext::Phrase)) {
                Ok(()) => {},
                Err(e) => {
                    proof {
                        lemma_encode_words_stop(old(handle)@, self.0@, i + 1);
                    }
                    return Err(e);
                },
            }
            i = i + 1;
        }
        proof {
            assert(self.0@.take(i as int) =~= self.0@);
        }
        Ok(())
    }
}

/// Writing the words of a phrase one after the other, stopping at the
/// first error.
pub open spec fn spec_encode_words(v: HeaderView, words: Seq<Word>) -> (HeaderView, Result<(), EncodingError>)
    decreases words.len(),
{
    if words.len() == 0 {
        (v, Ok(()))
    } else {
        let (w, r) = spec_encode_words(v, words.drop_last());
        if r is Err {
            (w, r)
        } else {
            spec_encode_word(w, words.last(), Some(EncodedWordContext::Phrase))
        }
    }
}

/// Once writing words failed, the later words change nothing.
proof fn lemma_encode_words_stop(v: HeaderView, words: Seq<Word>, k: int)
    requires
        0 <= k <= words.len(),
        spec_encode_words(v, words.take(k)).1 is Err,
    ensures
        spec_encode_words(v, words) == spec_encode_words(v, words.take(k)),
    decreases words.len(),
{
    if k == words.len() {
        assert(words.take(k) =~= words);
    } else {
        assert(words.drop_last().take(k) =~= words.take(k));
        lemma_encode_words_stop(v, words.drop_last(), k);
    }
}

} // verus!
