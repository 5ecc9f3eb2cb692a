//! The parts of the leasing system, taken one by one.

use parity_scale_codec::{Decode, Encode, Input, Output};
use slots::account::Account;
use slots::bidder::{Bidder, NewBidder};
use slots::deposits::{end_first_period, held_amount, locked_amount, place_lease};
use slots::dispatch::{ensure_signed, DispatchError, Origin};
use slots::hashing::same_hash;
use slots::ordered::{binary_search, sort, swap_ordered_existence};
use slots::primitives::ParaId;
use slots::state::Module;
use slots::swapping::swap_entries;
use slots::traits::Leaser;
use sp_runtime::traits::AccountIdConversion;
use std::collections::BTreeMap;

/// The ID of a para, in the form that account IDs are derived from.
struct SeededId(u32);

impl sp_runtime::TypeId for SeededId {
    const TYPE_ID: [u8; 4] = *b"para";
}

impl Encode for SeededId {
    fn encode_to<W: Output + ?Sized>(&self, dest: &mut W) {
        self.0.encode_to(dest)
    }
}

impl Decode for SeededId {
    fn decode<I: Input>(input: &mut I) -> Result<Self, parity_scale_codec::Error> {
        u32::decode(input).map(SeededId)
    }
}

const IDS: [ParaId; 7] = [0, 1, 255, 256, 0x0102_0304, 0x8000_0000, u32::MAX];

#[test]
fn para_accounts_are_those_of_the_runtime() {
    for id in IDS {
        let number: u64 = SeededId(id).into_account_truncating();
        assert_eq!(<u64 as Account>::of_para(id), number);
        let bytes: [u8; 32] = SeededId(id).into_account_truncating();
        assert_eq!(<[u8; 32] as Account>::of_para(id), bytes);
    }
}

#[test]
fn para_accounts_are_exact() {
    assert_eq!(<u64 as Account>::of_para(0), 0x6172_6170);
    assert_eq!(<u64 as Account>::of_para(0x0102_0304), 0x0102_0304_6172_6170);
    let account = <[u8; 32] as Account>::of_para(0x0102_0304);
    assert_eq!(&account[..8], b"para\x04\x03\x02\x01");
    assert_eq!(account[8..], [0u8; 24]);
    assert_eq!(<u64 as Account>::unset(), 0);
    assert_eq!(<[u8; 32] as Account>::unset(), [0u8; 32]);
    assert!(account.same(&account));
    let mut other = account;
    other[31] = 1;
    assert!(!account.same(&other));
}

#[test]
fn bids_are_funded_by_the_bidder_or_the_para() {
    let new: Bidder<u64> = Bidder::New(NewBidder { who: 17, sub: 4 });
    assert_eq!(new.funding_account(), 17);
    let existing: Bidder<u64> = Bidder::Existing(2);
    assert_eq!(existing.funding_account(), 0x2_6172_6170);
}

#[test]
fn long_account_ids_lease_too() {
    let mut slots: Module<[u8; 32]> = Module::new(10);
    let who = [3u8; 32];
    let result = slots.lease_out(1, who, 20, 0, 2, |account, extra| {
        assert_eq!((account, extra), (who, 20));
        Ok::<(), ()>(())
    });
    assert_eq!(result, Ok(()));
    assert_eq!(slots.deposit_held(1, &who), 20);
    assert_eq!(slots.deposit_held(1, &[4u8; 32]), 0);
}

#[test]
fn only_signed_calls_have_a_signer() {
    assert_eq!(ensure_signed(Origin::Signed(5)), Ok(5));
    assert_eq!(ensure_signed::<u64>(Origin::Root), Err(DispatchError::BadOrigin));
    assert_eq!(ensure_signed::<u64>(Origin::Unsigned), Err(DispatchError::BadOrigin));
}

#[test]
fn the_greatest_deposit_is_locked() {
    let deposits = vec![None, Some((1u64, 4)), Some((2, 9)), None, Some((1, 7))];
    assert_eq!(locked_amount(&deposits), 9);
    assert_eq!(held_amount(&deposits, &1), 7);
    assert_eq!(held_amount(&deposits, &2), 9);
    assert_eq!(held_amount(&deposits, &3), 0);
    assert_eq!(locked_amount::<u64>(&vec![]), 0);
}

#[test]
fn ending_a_period_refunds_the_difference() {
    let mut deposits = vec![Some((1u64, 9)), Some((2, 4)), None, Some((1, 6))];
    assert_eq!(end_first_period(&mut deposits), Some(3));
    assert_eq!(deposits, vec![Some((2, 4)), None, Some((1, 6))]);
    assert_eq!(end_first_period(&mut deposits), None);
    assert_eq!(end_first_period(&mut deposits), None);
    assert_eq!(end_first_period(&mut deposits), Some(6));
    assert_eq!(deposits, vec![]);
}

#[test]
fn leases_fill_the_gaps() {
    let mut deposits = vec![Some((1u64, 9)), None];
    place_lease(&mut deposits, 4, 1, 2, 3);
    assert_eq!(deposits, vec![Some((1, 9)), None, None, None, Some((2, 3))]);
    place_lease(&mut deposits, 0, 3, 5, 8);
    assert_eq!(
        deposits,
        vec![Some((1, 9)), Some((5, 8)), Some((5, 8)), None, Some((2, 3))],
    );
}

#[test]
fn lookups_find_the_place() {
    let items = [2, 3, 5, 7, 11];
    assert_eq!(binary_search(&items, &7), Ok(3));
    assert_eq!(binary_search(&items, &2), Ok(0));
    assert_eq!(binary_search(&items, &1), Err(0));
    assert_eq!(binary_search(&items, &6), Err(3));
    assert_eq!(binary_search(&items, &12), Err(5));
    assert_eq!(binary_search::<u32>(&[], &12), Err(0));
}

#[test]
fn sorting_sorts() {
    let mut items = [5, 1, 4, 1, 3];
    sort(&mut items);
    assert_eq!(items, [1, 1, 3, 4, 5]);
}

#[test]
fn existence_is_swapped_within_an_ordered_list() {
    let mut ids = vec![1, 4, 6, 9];
    swap_ordered_existence(&mut ids, 4, 10);
    assert_eq!(ids, vec![1, 6, 9, 10]);
    swap_ordered_existence(&mut ids, 4, 10);
    assert_eq!(ids, vec![1, 4, 6, 9]);
    swap_ordered_existence(&mut ids, 0, 9);
    assert_eq!(ids, vec![0, 1, 4, 6]);
    swap_ordered_existence(&mut ids, 1, 6);
    assert_eq!(ids, vec![0, 1, 4, 6]);
    swap_ordered_existence(&mut ids, 2, 3);
    assert_eq!(ids, vec![0, 1, 4, 6]);
}

#[test]
fn entries_are_swapped() {
    let mut m = BTreeMap::new();
    m.insert(1, 'a');
    m.insert(2, 'b');
    swap_entries(&mut m, 1, 2);
    assert_eq!((m.get(&1), m.get(&2)), (Some(&'b'), Some(&'a')));
    swap_entries(&mut m, 2, 3);
    assert_eq!((m.get(&2), m.get(&3)), (None, Some(&'a')));
    swap_entries(&mut m, 3, 3);
    assert_eq!(m.get(&3), Some(&'a'));
}

#[test]
fn hashes_are_compared_in_full() {
    let one = [1u8; 32];
    let mut other = one;
    assert!(same_hash(&one, &other));
    other[31] = 0;
    assert!(!same_hash(&one, &other));
}
