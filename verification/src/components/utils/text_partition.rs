//! Splitting a text into runs of visible chars and runs of whitespace.
use vstd::prelude::*;

use crate::char_validators::{MailType, is_vchar, is_ws, spec_is_vchar};
use crate::error::EncodingError;
use crate::grammar::spec_is_ws;
use crate::utils::str_chars;
use vstd::string::StrSliceExecFns;

verus! {

/// A run of a text: whitespace (including CR and LF) or visible chars.
#[derive(Debug, Clone, Copy, PartialEq, Eq)]
pub enum Partition<'a> {
    SPACE(&'a str),
    VCHAR(&'a str),
}

/// Whether `ch` belongs to a whitespace run.
pub open spec fn is_space_class(ch: char) -> bool {
    spec_is_ws(ch) || ch == '\r' || ch == '\n'
}

/// Whether `ch` belongs to a run of visible chars.
pub open spec fn is_vchar_class(ch: char) -> bool {
    spec_is_vchar(ch, MailType::Internationalized)
}

/// The text of a run.
pub open spec fn part_text<'a>(p: Partition<'a>) -> Seq<char> {
    match p {
        Partition::SPACE(s) => s@,
        Partition::VCHAR(s) => s@,
    }
}

/// The texts of the runs, one after the other.
pub open spec fn parts_concat<'a>(ps: Seq<Partition<'a>>) -> Seq<char>
    decreases ps.len(),
{
    if ps.len() == 0 {
        Seq::empty()
    } else {
        parts_concat(ps.drop_last()) + part_text(ps.last())
    }
}

/// A run is non-empty and its chars are of its class.
pub open spec fn part_ok<'a>(p: Partition<'a>) -> bool {
    &&& part_text(p).len() > 0
    &&& forall|j: int|
        0 <= j < part_text(p).len() ==> (if p is VCHAR {
            is_vchar_class(#[trigger] part_text(p)[j])
        } else {
            is_space_class(part_text(p)[j])
        })
}

/// Runs are non-empty, of one class each, and neighbours differ in class.
pub open spec fn well_partitioned<'a>(ps: Seq<Partition<'a>>) -> bool {
    &&& forall|i: int| 0 <= i < ps.len() ==> #[trigger] part_ok(ps[i])
    &&& forall|i: int| 0 <= i < ps.len() - 1 ==> (#[trigger] ps[i] is VCHAR) != (ps[i + 1] is VCHAR)
}

/// The first char of `s` from `i` on which is neither visible nor whitespace.
pub open spec fn first_unencodable(s: Seq<char>, i: int) -> Option<char>
    decreases s.len() - i,
{
    if i >= s.len() {
        None
    } else if !is_vchar_class(s[i]) && !is_space_class(s[i]) {
        Some(s[i])
    } else {
        first_unencodable(s, i + 1)
    }
}

proof fn lemma_first_unencodable_none(s: Seq<char>, i: int, n: int)
    requires
        0 <= i <= n,
        first_unencodable(s, i) is None,
        n <= s.len(),
    ensures
        first_unencodable(s, n) is None,
        forall|j: int| i <= j < n ==> is_vchar_class(#[trigger] s[j]) || is_space_class(s[j]),
    decreases n - i,
{
    if i < n {
        lemma_first_unencodable_none(s, i + 1, n);
    }
}

/// Splits `text` into runs of visible chars and runs of whitespace
/// (space, tab, CR, LF), in order.
///
/// Fails with `NotEncodable` on the first char which is neither.
pub fn partition<'a>(text: &'a str) -> (r: Result<Vec<Partition<'a>>, EncodingError>)
    ensures
        match first_unencodable(text@, 0) {
            Some(ch) => r == Err::<Vec<Partition<'a>>, EncodingError>(
                EncodingError::NotEncodable(ch),
            ),
            None => r matches Ok(ps) && parts_concat(ps@) == text@ && well_partitioned(ps@),
        },
{
    let chars = str_chars(text);
    let ghost s = text@;
    let mut partitions: Vec<Partition<'a>> = Vec::new();
    if chars.len() == 0 {
        return Ok(partitions);
    }
    let start_with_vchar = is_vchar(chars[0], MailType::Internationalized);
    let mut current_is_vchar = start_with_vchar;
    let mut start_of_current: usize = 0;
    let mut idx: usize = 0;
    while idx < chars.len()
        invariant
            chars@ == s,
            s == text@,
            chars.len() > 0,
            start_of_current <= idx <= chars.len(),
            idx == 0 ==> current_is_vchar == is_vchar_class(s[0]),
            idx > 0 ==> start_of_current < idx,
            forall|j: int|
                start_of_current <= j < idx ==> (if current_is_vchar {
                    is_vchar_class(#[trigger] s[j])
                } else {
                    is_space_class(s[j])
                }),
            first_unencodable(s, 0) == first_unencodable(s, idx as int),
            parts_concat(partitions@) == s.take(start_of_current as int),
            well_partitioned(partitions@),
            partitions@.len() > 0 ==> (partitions@.last() is VCHAR) != current_is_vchar,
        decreases chars.len() - idx,
    {
        let ch = chars[idx];
        if is_vchar(ch, MailType::Internationalized) {
            if !current_is_vchar {
                let part = text.substring_char(start_of_current, idx);
                let ghost before = partitions@;
                partitions.push(Partition::SPACE(part));
                proof {
                    lemma_push_part(before, Partition::SPACE(part), s, start_of_current as int, idx as int);
                }
                start_of_current = idx;
                current_is_vchar = true;
            }
        } else if is_ws(ch) || ch == '\r' || ch == '\n' {
            if current_is_vchar {
                let part = text.substring_char(start_of_current, idx);
                let ghost before = partitions@;
                partitions.push(Partition::VCHAR(part));
                proof {
                    lemma_push_part(before, Partition::VCHAR(part), s, start_of_current as int, idx as int);
                }
                start_of_current = idx;
                current_is_vchar = false;
            }
        } else {
            return Err(EncodingError::NotEncodable(ch));
        }
        idx = idx + 1;
    }
    let last = text.substring_char(start_of_current, chars.len());
    let ghost before = partitions@;
    if current_is_vchar {
        partitions.push(Partition::VCHAR(last));
        proof {
            lemma_push_part(before, Partition::VCHAR(last), s, start_of_current as int, s.len() as int);
        }
    } else {
        partitions.push(Partition::SPACE(last));
        proof {
            lemma_push_part(before, Partition::SPACE(last), s, start_of_current as int, s.len() as int);
        }
    }
    proof {
        assert(s.take(s.len() as int) =~= s);
    }
    Ok(partitions)
}

proof fn lemma_push_part<'a>(ps: Seq<Partition<'a>>, p: Partition<'a>, s: Seq<char>, start: int, end: int)
    requires
        0 <= start < end <= s.len(),
        parts_concat(ps) == s.take(start),
        part_text(p) == s.subrange(start, end),
        well_partitioned(ps),
        ps.len() > 0 ==> (ps.last() is VCHAR) != (p is VCHAR),
        forall|j: int|
            start <= j < end ==> (if p is VCHAR {
                is_vchar_class(#[trigger] s[j])
            } else {
                is_space_class(s[j])
            }),
    ensures
        parts_concat(ps.push(p)) == s.take(end),
        well_partitioned(ps.push(p)),
{
    let qs = ps.push(p);
    assert(qs.drop_last() =~= ps);
    assert(s.take(start) + s.subrange(start, end) =~= s.take(end));
    assert forall|j: int| 0 <= j < part_text(p).len() implies (if p is VCHAR {
        is_vchar_class(#[trigger] part_text(p)[j])
    } else {
        is_space_class(part_text(p)[j])
    }) by {
        assert(part_text(p)[j] == s[start + j]);
    }
    assert(part_ok(p));
    assert forall|i: int| 0 <= i < qs.len() implies #[trigger] part_ok(qs[i]) by {
        if i < ps.len() {
            assert(qs[i] == ps[i]);
        }
    }
    assert forall|i: int| 0 <= i < qs.len() - 1 implies (#[trigger] qs[i] is VCHAR) != (qs[i + 1] is VCHAR) by {
        assert(qs[i] == ps[i]);
        if i + 1 < ps.len() {
            assert(qs[i + 1] == ps[i + 1]);
        }
    }
}

} // verus!
