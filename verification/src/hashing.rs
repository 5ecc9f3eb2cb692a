//! The hash by which validation code is committed to before it is supplied.

use sp_runtime::traits::BlakeTwo256;
use vstd::prelude::*;

verus! {

/// A 256-bit hash of validation code.
pub type CodeHash = [u8; 32];

/// The Blake2 hash, with a 256-bit output, of `data`.
pub uninterp spec fn blake_two_256(data: Seq<u8>) -> Seq<u8>;

/// Hashes `data` with `sp_runtime::traits::BlakeTwo256`, by way of its `Hash` trait.
///
/// Trusted: the 32 bytes that come back depend on `data` alone, and are what `blake_two_256`
/// names. Nothing is claimed of how they relate to `data`, such as that two preimages differ.
#[verifier::external_body]
pub(crate) fn hash_of(data: &[u8]) -> (hash: CodeHash)
    ensures
        hash@ == blake_two_256(data@),
{
    <BlakeTwo256 as sp_runtime::traits::Hash>::hash(data).0
}

/// Whether two hashes are the same.
pub fn same_hash(one: &CodeHash, other: &CodeHash) -> (result: bool)
    ensures
        result == (one@ == other@),
{
    let mut i: usize = 0;
    while i < 32
        invariant
            i <= 32,
            forall|j: int| 0 <= j < i ==> one@[j] == other@[j],
        decreases 32 - i,
    {
        if one[i] != other[i] {
            return false;
        }
        i = i + 1;
    }
    assert(one@ =~= other@);
    true
}

} // verus!
