//! Small questions about byte strings.

use vstd::prelude::*;

verus! {

/// `text` ends in `suffix`.
pub open spec fn ends_in(text: Seq<u8>, suffix: Seq<u8>) -> bool {
    suffix.len() <= text.len() && text.subrange(text.len() - suffix.len(), text.len() as int)
        == suffix
}

/// Whether two byte strings are the same.
pub fn bytes_equal(left: &[u8], right: &[u8]) -> (same: bool)
    ensures
        same == (left@ == right@),
{
    if left.len() != right.len() {
        return false;
    }
    let mut at: usize = 0;
    while at < left.len()
        invariant
            left.len() == right.len(),
            at <= left.len(),
            forall|i: int| 0 <= i < at ==> left@[i] == right@[i],
        decreases left.len() - at,
    {
        if left[at] != right[at] {
            return false;
        }
        at += 1;
    }
    assert(left@ =~= right@);
    true
}

/// Whether a byte string ends in another.
pub fn bytes_end_in(text: &[u8], suffix: &[u8]) -> (found: bool)
    ensures
        found == ends_in(text@, suffix@),
{
    if suffix.len() > text.len() {
        return false;
    }
    let start: usize = text.len() - suffix.len();
    let mut at: usize = 0;
    while at < suffix.len()
        invariant
            start + suffix.len() == text.len(),
            at <= suffix.len(),
            forall|i: int| 0 <= i < at ==> text@[start + i] == suffix@[i],
        decreases suffix.len() - at,
    {
        if text[start + at] != suffix[at] {
            return false;
        }
        at += 1;
    }
    assert(text@.subrange(text.len() - suffix.len(), text.len() as int) =~= suffix@);
    true
}

} // verus!
