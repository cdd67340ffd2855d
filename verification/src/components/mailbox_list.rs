//! Lists of mailboxes, separated by commas.
use vstd::prelude::*;

use crate::codec::encoder::{EncodeHeaderHandle, HeaderView, then_write};
use crate::components::mailbox::{Mailbox, spec_mailbox_encode};
use crate::error::EncodingError;

verus! {

/// A list of mailboxes which may be empty.
pub struct OptMailboxList(pub Vec<Mailbox>);

/// A list of mailboxes which is meant to hold at least one.
pub struct MailboxList(pub Vec<Mailbox>);

/// Writing mailboxes: a `,` and folding whitespace between two of them;
/// stopping at the first error.
pub open spec fn spec_mailboxes_encode(v: HeaderView, ms: Seq<Mailbox>) -> (
    HeaderView,
    Result<(), EncodingError>,
)
    decreases ms.len(),
{
    if ms.len() == 0 {
        (v, Ok(()))
    } else {
        let last = ms.last();
        let more = ms.len() > 1;
        then_write(
            spec_mailboxes_encode(v, ms.drop_last()),
            |w: HeaderView|
                then_write(
                    if more {
                        then_write(w.write_one(','), |x: HeaderView| (x.fws(), Ok(())))
                    } else {
                        (w, Ok(()))
                    },
                    |y: HeaderView| spec_mailbox_encode(y, last),
                ),
        )
    }
}

/// Once writing mailboxes failed, the later mailboxes change nothing.
proof fn lemma_mailboxes_stop(v: HeaderView, ms: Seq<Mailbox>, k: int)
    requires
        0 <= k <= ms.len(),
        spec_mailboxes_encode(v, ms.take(k)).1 is Err,
    ensures
        spec_mailboxes_encode(v, ms) == spec_mailboxes_encode(v, ms.take(k)),
    decreases ms.len(),
{
    if k == ms.len() {
        assert(ms.take(k) =~= ms);
    } else {
        assert(ms.drop_last().take(k) =~= ms.take(k));
        lemma_mailboxes_stop(v, ms.drop_last(), k);
    }
}

/// Writes the mailboxes (see `spec_mailboxes_encode`).
fn encode_list(list: &Vec<Mailbox>, handle: &mut EncodeHeaderHandle) -> (r: Result<(), EncodingError>)
    requires
        old(handle).wf(),
    ensures
        final(handle).wf(),
        (final(handle)@, r) == spec_mailboxes_encode(old(handle)@, list@),
{
    let ghost v0 = handle@;
    let mut i: usize = 0;
    while i < list.len()
        invariant
            i <= list.len(),
            handle.wf(),
            v0 == old(handle)@,
            (handle@, Ok::<(), EncodingError>(())) == spec_mailboxes_encode(v0, list@.take(i as int)),
        decreases list.len() - i,
    {
        let ghost before = handle@;
        proof {
            assert(list@.take(i + 1).drop_last() =~= list@.take(i as int));
            assert(list@.take(i + 1).last() == list@[i as int]);
        }
        if i > 0 {
            match handle.write_char(',') {
                Ok(()) => {},
                Err(e) => {
                    proof {
                        lemma_mailboxes_stop(v0, list@, i + 1);
                    }
                    return Err(e);
                },
            }
            handle.write_fws();
        }
        match list[i].encode(handle) {
            Ok(()) => {},
            Err(e) => {
                proof {
                    lemma_mailboxes_stop(v0, list@, i + 1);
                }
                return Err(e);
            },
        }
        i = i + 1;
    }
    proof {
        assert(list@.take(i as int) =~= list@);
    }
    Ok(())
}

impl OptMailboxList {
    /// Writes the mailboxes (see `spec_mailboxes_encode`).
    pub fn encode(&self, handle: &mut EncodeHeaderHandle) -> (r: Result<(), EncodingError>)
        requires
            old(handle).wf(),
        ensures
            final(handle).wf(),
            (final(handle)@, r) == spec_mailboxes_encode(old(handle)@, self.0@),
    {
        encode_list(&self.0, handle)
    }
}

impl MailboxList {
    /// A list holding the one mailbox `m`.
    pub fn from_single(m: Mailbox) -> (r: MailboxList)
        ensures
            r.0@ == seq![m],
    {
        MailboxList(vec![m])
    }

    /// Writes the mailboxes (see `spec_mailboxes_encode`).
    pub fn encode(&self, handle: &mut EncodeHeaderHandle) -> (r: Result<(), EncodingError>)
        requires
            old(handle).wf(),
        ensures
            final(handle).wf(),
            (final(handle)@, r) == spec_mailboxes_encode(old(handle)@, self.0@),
    {
        encode_list(&self.0, handle)
    }
}

} // verus!
