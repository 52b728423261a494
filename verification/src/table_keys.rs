//! The integer keys by which inspector cells are ordered. Floating-point cells
//! travel as their IEEE-754 bit patterns, and `float_rank` orders those bit
//! patterns as the IEEE-754 total order does.

use vstd::prelude::*;

use crate::inspector::EvidenceCompleteness;
use crate::runs::RunStatus;
use crate::text::chars_of;

verus! {

/// Position of a bit pattern in the IEEE-754 total order: negative values
/// (sign bit set) reversed below the non-negative ones, so that -0.0 sorts
/// just before +0.0 and NaNs sort at the ends.
pub open spec fn float_rank(bits: u64) -> i128 {
    if bits < 0x8000_0000_0000_0000u64 {
        bits as i128
    } else {
        (0x7fff_ffff_ffff_ffffi128 - bits) as i128
    }
}

/// The rank of a floating-point cell given by its bit pattern.
pub fn float_key(bits: Option<u64>) -> (key: Option<i128>)
    ensures
        key == match bits {
            Some(b) => Some(float_rank(b)),
            None => None::<i128>,
        },
{
    match bits {
        Some(b) => if b < 0x8000_0000_0000_0000u64 {
            Some(b as i128)
        } else {
            Some(0x7fff_ffff_ffff_ffffi128 - b as i128)
        },
        None => None,
    }
}

/// The rank of the value of a cursor cell, an axis position and the bit
/// pattern of the value found there.
pub fn cursor_key(cell: Option<(i64, u64)>) -> (key: Option<i128>)
    ensures
        key == match cell {
            Some((_, b)) => Some(float_rank(b)),
            None => None::<i128>,
        },
{
    match cell {
        Some((_, b)) => float_key(Some(b)),
        None => None,
    }
}

/// The key of a count cell.
pub open spec fn count_cell(count: Option<u64>) -> Option<i128> {
    match count {
        Some(c) => Some(c as i128),
        None => None,
    }
}

/// The key of a step cell.
pub open spec fn step_cell(step: Option<i64>) -> Option<i128> {
    match step {
        Some(s) => Some(s as i128),
        None => None,
    }
}

/// A count cell as a key.
pub fn count_key(count: Option<u64>) -> (key: Option<i128>)
    ensures
        key == count_cell(count),
{
    match count {
        Some(c) => Some(c as i128),
        None => None,
    }
}

/// A step cell as a key.
pub fn step_key(step: Option<i64>) -> (key: Option<i128>)
    ensures
        key == step_cell(step),
{
    match step {
        Some(s) => Some(s as i128),
        None => None,
    }
}

/// Sort rank of a Run status: running, finished, failed.
pub open spec fn status_rank(status: RunStatus) -> i128 {
    match status {
        RunStatus::Running => 0,
        RunStatus::Finished => 1,
        RunStatus::Failed => 2,
    }
}

/// Sort rank of evidence completeness: complete, partial, unavailable, invalid.
pub open spec fn evidence_rank(evidence: EvidenceCompleteness) -> i128 {
    match evidence {
        EvidenceCompleteness::Complete => 0,
        EvidenceCompleteness::Partial => 1,
        EvidenceCompleteness::Unavailable => 2,
        EvidenceCompleteness::Invalid => 3,
    }
}

/// Baseline rows first, then pinned rows, then the rest.
pub open spec fn group_rank(baseline: bool, pinned: bool) -> i128 {
    if baseline {
        0
    } else if pinned {
        1
    } else {
        2
    }
}

/// A row's position in the snapshot as a key.
pub open spec fn order_rank(original_order: usize) -> i128 {
    original_order as i128
}

/// A row's position in the snapshot as a key.
pub fn order_key(original_order: usize) -> (key: i128)
    ensures
        key == order_rank(original_order),
{
    original_order as i128
}

/// Two bit patterns rank alike only when they are the same bit pattern.
pub proof fn float_rank_is_injective(a: u64, b: u64)
    ensures
        float_rank(a) == float_rank(b) ==> a == b,
{
}

/// A small rank widened to a key.
pub fn rank_key(rank: u8) -> (key: i128)
    ensures
        key == rank as i128,
{
    rank as i128
}

/// Lexicographic comparison of two texts, character by character: -1 when
/// `a` comes first, 0 when they are equal, 1 when `b` comes first.
pub open spec fn text_sign(a: Seq<char>, b: Seq<char>) -> i128
    decreases a.len(),
{
    if a.len() == 0 {
        if b.len() == 0 {
            0
        } else {
            -1i128
        }
    } else if b.len() == 0 {
        1
    } else if a[0] < b[0] {
        -1i128
    } else if a[0] > b[0] {
        1
    } else {
        text_sign(a.drop_first(), b.drop_first())
    }
}

/// Compares two texts character by character.
pub fn text_sign_of(a: &str, b: &str) -> (sign: i128)
    ensures
        sign == text_sign(a@, b@),
{
    let x = chars_of(a);
    let y = chars_of(b);
    let mut i: usize = 0;
    proof {
        assert(a@.skip(0) =~= a@);
        assert(b@.skip(0) =~= b@);
    }
    while i < x.len() && i < y.len()
        invariant
            x@ == a@,
            y@ == b@,
            i <= x@.len(),
            i <= y@.len(),
            text_sign(a@, b@) == text_sign(a@.skip(i as int), b@.skip(i as int)),
        decreases x@.len() - i,
    {
        proof {
            assert(a@.skip(i as int).drop_first() =~= a@.skip(i + 1));
            assert(b@.skip(i as int).drop_first() =~= b@.skip(i + 1));
        }
        if x[i] < y[i] {
            return -1;
        }
        if x[i] > y[i] {
            return 1;
        }
        i = i + 1;
    }
    if i < x.len() {
        1
    } else if i < y.len() {
        -1
    } else {
        proof {
            assert(a@.skip(i as int) =~= Seq::<char>::empty());
            assert(b@.skip(i as int) =~= Seq::<char>::empty());
        }
        0
    }
}

/// Comparing the other way round flips the sign, and only equal texts compare
/// equal.
pub proof fn lemma_text_sign(a: Seq<char>, b: Seq<char>)
    ensures
        text_sign(b, a) == 0 - text_sign(a, b),
        -1 <= text_sign(a, b) <= 1,
        (text_sign(a, b) == 0) == (a == b),
    decreases a.len(),
{
    if a.len() == 0 && b.len() == 0 {
        assert(a =~= b);
    }
    if a.len() > 0 && b.len() > 0 && a[0] == b[0] {
        lemma_text_sign(a.drop_first(), b.drop_first());
        if a.drop_first() == b.drop_first() {
            assert(a =~= b) by {
                assert forall|i: int| 0 <= i < a.len() implies a[i] == b[i] by {
                    if i > 0 {
                        assert(a[i] == a.drop_first()[i - 1]);
                        assert(b[i] == b.drop_first()[i - 1]);
                    }
                }
            }
        }
    }
}

/// Texts that come first chain.
pub proof fn lemma_text_sign_chain(a: Seq<char>, b: Seq<char>, c: Seq<char>)
    requires
        text_sign(a, b) < 0,
        text_sign(b, c) < 0,
    ensures
        text_sign(a, c) < 0,
    decreases a.len(),
{
    if a.len() > 0 && b.len() > 0 && c.len() > 0 && a[0] == b[0] && b[0] == c[0] {
        lemma_text_sign_chain(a.drop_first(), b.drop_first(), c.drop_first());
    }
}

/// Texts strictly increasing in character order: sorted, each once.
pub open spec fn strictly_increasing(texts: Seq<Seq<char>>) -> bool {
    forall|i: int, j: int| 0 <= i < j < texts.len() ==> text_sign(#[trigger] texts[i], #[trigger] texts[j]) < 0
}

} // verus!
