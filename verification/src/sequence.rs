//! Finding one run of bytes inside another.

use vstd::prelude::*;

verus! {

/// `needle` stands in `bytes` from place `at` on.
pub open spec fn occurs_at(bytes: Seq<u8>, needle: Seq<u8>, at: int) -> bool {
    0 <= at && at + needle.len() <= bytes.len() && bytes.subrange(at, at + needle.len())
        == needle
}

/// `needle` has a byte at least and stands somewhere in `bytes`, all of it in
/// one piece.
pub open spec fn occurs(bytes: Seq<u8>, needle: Seq<u8>) -> bool {
    needle.len() > 0 && exists|at: int| occurs_at(bytes, needle, at)
}

/// Whether `needle` stands in `bytes` from place `at` on.
fn matches_at(bytes: &[u8], needle: &[u8], at: usize) -> (found: bool)
    requires
        at + needle@.len() <= bytes@.len(),
    ensures
        found == occurs_at(bytes@, needle@, at as int),
{
    let mut k: usize = 0;
    assert(bytes@.len() == bytes.len());
    while k < needle.len()
        invariant
            at + needle@.len() <= bytes@.len() <= usize::MAX,
            k <= needle@.len(),
            forall|j: int| 0 <= j < k ==> bytes@[at + j] == needle@[j],
        decreases needle@.len() - k,
    {
        if bytes[at + k] != needle[k] {
            assert(bytes@.subrange(at as int, at + needle@.len())[k as int] != needle@[k as int]);
            return false;
        }
        k += 1;
    }
    assert(bytes@.subrange(at as int, at + needle@.len()) == needle@);
    true
}

/// Whether the bytes of `needle` stand somewhere in `bytes`, in order and
/// with nothing between them. An empty needle is never found.
pub fn has_sequence(bytes: &[u8], needle: &[u8]) -> (found: bool)
    ensures
        found == occurs(bytes@, needle@),
{
    if needle.len() == 0 || needle.len() > bytes.len() {
        return false;
    }
    let last = bytes.len() - needle.len();
    let mut at: usize = 0;
    while at <= last
        invariant
            needle@.len() > 0,
            last + needle@.len() == bytes@.len() <= usize::MAX,
            at <= last + 1,
            forall|j: int| 0 <= j < at ==> !occurs_at(bytes@, needle@, j),
        decreases last + 1 - at,
    {
        if matches_at(bytes, needle, at) {
            return true;
        }
        at += 1;
    }
    false
}

} // verus!
