//! What a swap does, field by field.

use crate::ordered::{existence_swapped, lemma_existence_swap_keeps_distinct, ordered};
use crate::onboarding::lemma_ascending;
use crate::primitives::{LeasePeriod, ParaId};
use crate::state::ModuleView;
use crate::swapping::{exchanged, renamed};
use vstd::prelude::*;

verus! {

/// Exchanging two entries of a map: each of the two keys gets what the other had, which may be
/// nothing, and all other keys keep theirs.
pub proof fn each_key_gets_what_the_other_had<V>(
    m: Map<ParaId, V>,
    one: ParaId,
    other: ParaId,
    id: ParaId,
)
    ensures
        ({
            let after = exchanged(m, one, other);
            &&& after.contains_key(one) == m.contains_key(other)
            &&& after.contains_key(other) == m.contains_key(one)
            &&& m.contains_key(other) ==> after[one] == m[other]
            &&& m.contains_key(one) ==> after[other] == m[one]
            &&& id != one && id != other ==> after.contains_key(id) == m.contains_key(id)
            &&& id != one && id != other && m.contains_key(id) ==> after[id] == m[id]
        }),
{
}

/// Putting two IDs in each other's place in a list.
pub proof fn each_id_stands_where_the_other_stood(
    ids: Seq<ParaId>,
    one: ParaId,
    other: ParaId,
    i: int,
)
    requires
        0 <= i < ids.len(),
    ensures
        ({
            let after = renamed(ids, one, other);
            &&& after.len() == ids.len()
            &&& ids[i] == one ==> after[i] == other
            &&& ids[i] == other ==> after[i] == one
            &&& ids[i] != one && ids[i] != other ==> after[i] == ids[i]
        }),
{
}

/// After a swap each of the two paras has the deposits and the off-boarding account that the other
/// had, and is managed exactly if the other was; all other paras keep theirs.
pub proof fn swap_gives_each_what_the_other_had<AccountId>(
    s: ModuleView<AccountId>,
    t: ModuleView<AccountId>,
    one: ParaId,
    other: ParaId,
    id: ParaId,
)
    requires
        s.well_formed(),
        s.swapped(t, one, other),
    ensures
        t.deposits.contains_key(one) == s.deposits.contains_key(other),
        t.deposits.contains_key(other) == s.deposits.contains_key(one),
        s.deposits.contains_key(other) ==> t.deposits[one] == s.deposits[other],
        s.deposits.contains_key(one) ==> t.deposits[other] == s.deposits[one],
        t.offboarding.contains_key(one) == s.offboarding.contains_key(other),
        t.offboarding.contains_key(other) == s.offboarding.contains_key(one),
        s.offboarding.contains_key(other) ==> t.offboarding[one] == s.offboarding[other],
        s.offboarding.contains_key(one) ==> t.offboarding[other] == s.offboarding[one],
        t.managed_ids.contains(one) == s.managed_ids.contains(other),
        t.managed_ids.contains(other) == s.managed_ids.contains(one),
        forall|i: int, j: int|
            0 <= i < j < t.managed_ids.len() ==> t.managed_ids[i] < t.managed_ids[j],
        id != one && id != other ==> {
            &&& t.deposits.contains_key(id) == s.deposits.contains_key(id)
            &&& s.deposits.contains_key(id) ==> t.deposits[id] == s.deposits[id]
            &&& t.offboarding.contains_key(id) == s.offboarding.contains_key(id)
            &&& s.offboarding.contains_key(id) ==> t.offboarding[id] == s.offboarding[id]
            &&& t.managed_ids.contains(id) == s.managed_ids.contains(id)
        },
{
    lemma_ascending(s.managed_ids);
    lemma_existence_swap_keeps_distinct(s.managed_ids, t.managed_ids, one, other);
    lemma_ascending(t.managed_ids);
}

/// After a swap each of the two paras stands, in the list of every lease period, where the other
/// stood; and nothing but deposits, off-boarding accounts, managed IDs and these lists changes.
pub proof fn swap_renames_in_every_list<AccountId>(
    s: ModuleView<AccountId>,
    t: ModuleView<AccountId>,
    one: ParaId,
    other: ParaId,
    period: LeasePeriod,
    i: int,
)
    requires
        s.swapped(t, one, other),
    ensures
        t.leased.contains_key(period) == s.leased.contains_key(period),
        s.leased.contains_key(period) ==> t.leased[period].len() == s.leased[period].len(),
        s.leased.contains_key(period) && 0 <= i < s.leased[period].len() ==> {
            &&& s.leased[period][i] == one ==> t.leased[period][i] == other
            &&& s.leased[period][i] == other ==> t.leased[period][i] == one
            &&& s.leased[period][i] != one && s.leased[period][i] != other
                ==> t.leased[period][i] == s.leased[period][i]
        },
        t.lease_period == s.lease_period,
        t.block_number == s.block_number,
        t.onboard_queue == s.onboard_queue,
        t.onboarding == s.onboarding,
        t.actions == s.actions,
{
}

/// Swapping the existence of two items in an ordered list: where the list holds exactly one of the
/// two, it gives up one occurrence of that and gains the other; where it holds both or neither, it
/// stays as it was. It stays ordered, and all other items occur as often as before.
pub proof fn existence_goes_over_to_the_other<T: Ord>(
    before: Seq<T>,
    after: Seq<T>,
    one: T,
    other: T,
    x: T,
)
    requires
        ordered(before),
        existence_swapped(before, after, one, other),
    ensures
        ordered(after),
        after.len() == before.len(),
        before.contains(one) == before.contains(other) ==> after == before,
        before.contains(one) && !before.contains(other) ==> {
            &&& after.to_multiset().count(one) == before.to_multiset().count(one) - 1
            &&& after.to_multiset().count(other) == 1
        },
        before.contains(other) && !before.contains(one) ==> {
            &&& after.to_multiset().count(other) == before.to_multiset().count(other) - 1
            &&& after.to_multiset().count(one) == 1
        },
        x != one && x != other ==> after.to_multiset().count(x) == before.to_multiset().count(x),
{
    broadcast use vstd::seq_lib::group_to_multiset_ensures;

    assert(after.to_multiset().len() == after.len());
    assert(before.to_multiset().len() == before.len());
}

} // verus!
