//! Account IDs, and the accounts that belong to paras.

use crate::primitives::ParaId;
use vstd::prelude::*;

verus! {

/// An account ID that the leasing system can work with.
pub trait Account: Copy {
    /// The account that belongs to the para `id`.
    spec fn spec_of_para(id: ParaId) -> Self;

    /// The account that stands where none was ever set.
    spec fn spec_unset() -> Self;

    /// Get the account that belongs to the para `id`.
    fn of_para(id: ParaId) -> (account: Self)
        ensures
            account == Self::spec_of_para(id),
    ;

    /// Get the account that stands where none was ever set.
    fn unset() -> (account: Self)
        ensures
            account == Self::spec_unset(),
    ;

    /// Whether two account IDs are the same.
    fn same(&self, other: &Self) -> (result: bool)
        ensures
            result == (*self == *other),
    ;
}

/// The byte of `n` that stands at `position` when `n` is written with its lowest byte first.
pub open spec fn little_endian_byte(n: u32, position: nat) -> u8
    recommends
        position < 4,
{
    let shifted = if position == 0 {
        n as int
    } else if position == 1 {
        n as int / 0x100
    } else if position == 2 {
        n as int / 0x1_0000
    } else {
        n as int / 0x100_0000
    };
    (shifted % 0x100) as u8
}

/// The bytes from which a para's account ID is made: the letters `para`, and then the para's ID
/// with its lowest byte first.
pub open spec fn para_seed(id: ParaId) -> Seq<u8> {
    seq![
        0x70u8,
        0x61u8,
        0x72u8,
        0x61u8,
        little_endian_byte(id, 0),
        little_endian_byte(id, 1),
        little_endian_byte(id, 2),
        little_endian_byte(id, 3),
    ]
}

/// The number whose bytes, the lowest first, are `bytes`.
pub open spec fn little_endian_value(bytes: Seq<u8>) -> nat
    decreases bytes.len(),
{
    if bytes.len() == 0 {
        0
    } else {
        bytes.first() as nat + 0x100 * little_endian_value(bytes.drop_first())
    }
}

/// A numeric account ID: that of a para is the number that its seed writes down.
impl Account for u64 {
    open spec fn spec_of_para(id: ParaId) -> u64 {
        little_endian_value(para_seed(id)) as u64
    }

    open spec fn spec_unset() -> u64 {
        0
    }

    fn of_para(id: ParaId) -> (account: u64)
        ensures
            account as nat == little_endian_value(para_seed(id)),
    {
        proof {
            lemma_para_number(id);
        }
        0x6172_6170u64 + 0x1_0000_0000u64 * (id as u64)
    }

    fn unset() -> (account: u64) {
        0
    }

    fn same(&self, other: &u64) -> (result: bool) {
        *self == *other
    }
}

/// The number that a para's seed writes down.
pub(crate) proof fn lemma_para_number(id: ParaId)
    ensures
        little_endian_value(para_seed(id)) == 0x6172_6170 + 0x1_0000_0000 * (id as nat),
{
    let s = para_seed(id);
    let n = id as int;
    reveal_with_fuel(little_endian_value, 9);
    assert(n == n % 0x100 + 0x100 * ((n / 0x100) % 0x100) + 0x1_0000 * ((n / 0x1_0000) % 0x100)
        + 0x100_0000 * ((n / 0x100_0000) % 0x100));
    let s1 = s.drop_first();
    let s2 = s1.drop_first();
    let s3 = s2.drop_first();
    let s4 = s3.drop_first();
    let s5 = s4.drop_first();
    let s6 = s5.drop_first();
    let s7 = s6.drop_first();
    assert(s7.drop_first().len() == 0);
}

/// A 32-byte account ID: that of a para is its seed, filled up with zeroes.
impl Account for [u8; 32] {
    open spec fn spec_of_para(id: ParaId) -> [u8; 32] {
        [
            0x70, 0x61, 0x72, 0x61,
            little_endian_byte(id, 0), little_endian_byte(id, 1),
            little_endian_byte(id, 2), little_endian_byte(id, 3),
            0, 0, 0, 0, 0, 0, 0, 0,
            0, 0, 0, 0, 0, 0, 0, 0,
            0, 0, 0, 0, 0, 0, 0, 0,
        ]
    }

    open spec fn spec_unset() -> [u8; 32] {
        [
            0, 0, 0, 0, 0, 0, 0, 0,
            0, 0, 0, 0, 0, 0, 0, 0,
            0, 0, 0, 0, 0, 0, 0, 0,
            0, 0, 0, 0, 0, 0, 0, 0,
        ]
    }

    fn of_para(id: ParaId) -> (account: [u8; 32])
        ensures
            account@ == para_seed(id) + Seq::new(24, |i: int| 0u8),
    {
        let mut account: [u8; 32] = [0; 32];
        account[0] = 0x70;
        account[1] = 0x61;
        account[2] = 0x72;
        account[3] = 0x61;
        account[4] = (id % 0x100) as u8;
        account[5] = ((id / 0x100) % 0x100) as u8;
        account[6] = ((id / 0x1_0000) % 0x100) as u8;
        account[7] = ((id / 0x100_0000) % 0x100) as u8;
        assert(account@ =~= para_seed(id) + Seq::new(24, |i: int| 0u8));
        assert(account =~= Self::spec_of_para(id));
        account
    }

    fn unset() -> (account: [u8; 32]) {
        let account: [u8; 32] = [0; 32];
        assert(account =~= Self::spec_unset());
        account
    }

    fn same(&self, other: &[u8; 32]) -> (result: bool) {
        let mut i: usize = 0;
        while i < 32
            invariant
                i <= 32,
                forall|j: int| 0 <= j < i ==> self@[j] == other@[j],
            decreases 32 - i,
        {
            if self[i] != other[i] {
                return false;
            }
            i = i + 1;
        }
        assert(*self =~= *other);
        true
    }
}

} // verus!
