//! A list of phrases, separated by commas.
use vstd::prelude::*;

use crate::codec::encoder::{EncodeHeaderHandle, HeaderView, then_write};
use crate::components::phrase::{Phrase, spec_encode_words};
use crate::error::EncodingError;

verus! {

/// A list of phrases which is meant to hold at least one.
#[derive(Debug, Clone, Hash, Eq, PartialEq)]
pub struct PhraseList(pub Vec<Phrase>);

/// Writing phrases: `,` and a space between two of them (errors of
/// writing these are ignored); stopping at the first error of a phrase.
pub open spec fn spec_phrases_encode(v: HeaderView, ps: Seq<Phrase>) -> (
    HeaderView,
    Result<(), EncodingError>,
)
    decreases ps.len(),
{
    if ps.len() == 0 {
        (v, Ok(()))
    } else {
        let last = ps.last();
        let more = ps.len() > 1;
        then_write(
            spec_phrases_encode(v, ps.drop_last()),
            |w: HeaderView|
                spec_encode_words(
                    if more {
                        w.write_one(',').0.write_one(' ').0
                    } else {
                        w
                    },
                    last.0@,
                ),
        )
    }
}

/// Once writing phrases failed, the later phrases change nothing.
proof fn lemma_phrases_stop(v: HeaderView, ps: Seq<Phrase>, k: int)
    requires
        0 <= k <= ps.len(),
        spec_phrases_encode(v, ps.take(k)).1 is Err,
    ensures
        spec_phrases_encode(v, ps) == spec_phrases_encode(v, ps.take(k)),
    decreases ps.len(),
{
    if k == ps.len() {
        assert(ps.take(k) =~= ps);
    } else {
        assert(ps.drop_last().take(k) =~= ps.take(k));
        lemma_phrases_stop(v, ps.drop_last(), k);
    }
}

impl PhraseList {
    /// Writes the phrases (see `spec_phrases_encode`).
    pub fn encode(&self, handle: &mut EncodeHeaderHandle) -> (r: Result<(), EncodingError>)
        requires
            old(handle).wf(),
        ensures
            final(handle).wf(),
            (final(handle)@, r) == spec_phrases_encode(old(handle)@, self.0@),
    {
        let ghost v0 = handle@;
        let mut i: usize = 0;
        while i < self.0.len()
            invariant
                i <= self.0.len(),
                handle.wf(),
                v0 == old(handle)@,
                (handle@, Ok::<(), EncodingError>(())) == spec_phrases_encode(
                    v0,
                    self.0@.take(i as int),
                ),
            decreases self.0.len() - i,
        {
            proof {
                assert(self.0@.take(i + 1).drop_last() =~= self.0@.take(i as int));
                assert(self.0@.take(i + 1).last() == self.0@[i as int]);
            }
            if i > 0 {
                let _ = handle.write_char(',');
                let _ = handle.write_char(' ');
            }
            match self.0[i].encode(handle) {
                Ok(()) => {},
                Err(e) => {
                    proof {
                        lemma_phrases_stop(v0, self.0@, i + 1);
                    }
                    return Err(e);
                },
            }
            i = i + 1;
        }
        proof {
            assert(self.0@.take(i as int) =~= self.0@);
        }
        Ok(())
    }
}

} // verus!
