//! Generating content ids from random text and a fixed postfix.
use rand::distributions::DistString;
use vstd::prelude::*;

use crate::components::message_id::{MessageID, is_dot_atom, is_no_fold_literal, lemma_message_id_form};
use crate::grammar::{MailType, spec_is_atext};
use crate::headers::is_alnum;
use crate::utils::{str_chars, string_from_chars};

verus! {

/// `n` random ascii letters and digits (rand's `Alphanumeric`
/// distribution with the thread local generator).
///
/// Trusted: the contract states only what holds of every outcome: the
/// text has `n` chars, each an ascii letter or digit (the distribution
/// picks from `A-Z`, `a-z` and `0-9`).
#[verifier::external_body]
fn random_alphanumeric(n: usize) -> (r: String)
    ensures
        r@.len() == n,
        forall|i: int| 0 <= i < n ==> is_alnum(#[trigger] r@[i]),
{
    rand::distributions::Alphanumeric.sample_string(&mut rand::thread_rng(), n)
}

/// The length of the random part of a content id.
pub const RANDOM_PART_LEN: usize = 10;

/// Generates content ids: a random part, `@` and a fixed postfix.
#[derive(Debug, Clone, Hash, Eq, PartialEq)]
pub struct RandomContentId {
    postfix: String,
}

impl RandomContentId {
    pub closed spec fn spec_postfix(&self) -> Seq<char> {
        self.postfix@
    }

    /// A generator of content ids ending in `@` and `postfix`.
    pub fn new(postfix: &str) -> (r: Self)
        ensures
            r.spec_postfix() == postfix@,
    {
        RandomContentId { postfix: string_from_chars(str_chars(postfix).as_slice()) }
    }

    /// A new content id: ten random ascii letters and digits, `@` and the
    /// postfix, which must be a dot-atom text or a domain literal for the
    /// id to be valid.
    pub fn new_content_id(&self) -> (r: MessageID)
        requires
            is_dot_atom(self.spec_postfix()) || is_no_fold_literal(self.spec_postfix()),
            self.spec_postfix().len() + RANDOM_PART_LEN + 2 < usize::MAX,
        ensures
            r@.len() == RANDOM_PART_LEN + 1 + self.spec_postfix().len(),
            forall|i: int| 0 <= i < RANDOM_PART_LEN ==> is_alnum(#[trigger] r@[i]),
            r@[RANDOM_PART_LEN as int] == '@',
            r@.skip(RANDOM_PART_LEN + 1) == self.spec_postfix(),
    {
        let random = random_alphanumeric(RANDOM_PART_LEN);
        let mut msg_id = str_chars(random.as_str());
        msg_id.push('@');
        let post = str_chars(self.postfix.as_str());
        let ghost base = msg_id@;
        let mut i: usize = 0;
        while i < post.len()
            invariant
                i <= post.len(),
                msg_id@ == base + post@.take(i as int),
            decreases post.len() - i,
        {
            msg_id.push(post[i]);
            proof {
                assert(base + post@.take(i + 1) =~= (base + post@.take(i as int)).push(post@[i as int]));
            }
            i = i + 1;
        }
        proof {
            assert(post@.take(i as int) =~= post@);
            assert(msg_id@.skip(RANDOM_PART_LEN + 1) =~= post@);
            assert forall|k: int| 0 <= k < RANDOM_PART_LEN implies is_alnum(#[trigger] msg_id@[k]) by {
                assert(msg_id@[k] == random@[k]);
            }
        }
        let text = string_from_chars(msg_id.as_slice());
        proof {
            let m = text@;
            assert(m.take(RANDOM_PART_LEN as int) =~= random@);
            assert forall|k: int| 0 <= k < RANDOM_PART_LEN implies (if #[trigger] m.take(
                RANDOM_PART_LEN as int,
            )[k] == '.' {
                0 < k && k + 1 < RANDOM_PART_LEN && m.take(RANDOM_PART_LEN as int)[k - 1] != '.'
            } else {
                spec_is_atext(m.take(RANDOM_PART_LEN as int)[k], MailType::Internationalized)
            }) by {
                assert(is_alnum(m[k]));
            }
            assert(is_dot_atom(m.take(RANDOM_PART_LEN as int)));
            assert(m[RANDOM_PART_LEN as int] == '@');
            lemma_message_id_form(m);
        }
        match MessageID::from_input(text.as_str()) {
            Ok(id) => id,
            Err(_) => {
                proof {
                    assert(false);
                }
                vstd::pervasive::unreached()
            },
        }
    }
}

} // verus!
