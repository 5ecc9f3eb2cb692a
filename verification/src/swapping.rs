//! Swapping two paras.

use crate::account::Account;
use crate::onboarding::lemma_ascending;
use crate::ordered::{
    existence_swapped, lemma_existence_swap_keeps_distinct, swap_ordered_existence,
};
use crate::primitives::{LeasePeriod, ParaId};
use crate::state::{lemma_lists_insert, lemma_lists_remove, lists, Module, ModuleView};
use crate::traits::SwapAux;
use std::collections::BTreeMap;
use vstd::prelude::*;
use vstd::std_specs::iter::IteratorSpec;

verus! {

/// The para that stands in `id`'s place once `one` and `other` are swapped.
pub open spec fn counterpart(id: ParaId, one: ParaId, other: ParaId) -> ParaId {
    if id == one {
        other
    } else if id == other {
        one
    } else {
        id
    }
}

/// `m` with what it holds for `one`, and what it holds for `other`, swapped; either may be nothing.
pub open spec fn exchanged<V>(m: Map<ParaId, V>, one: ParaId, other: ParaId) -> Map<ParaId, V> {
    Map::new(
        |id: ParaId| m.contains_key(counterpart(id, one, other)),
        |id: ParaId| m[counterpart(id, one, other)],
    )
}

/// `ids` with each of two paras standing where the other stood.
pub open spec fn renamed(ids: Seq<ParaId>, one: ParaId, other: ParaId) -> Seq<ParaId> {
    ids.map_values(|id: ParaId| counterpart(id, one, other))
}

/// `m` with each of two paras standing where the other stood, in every list.
pub open spec fn renamed_in_all(
    m: Map<LeasePeriod, Seq<ParaId>>,
    one: ParaId,
    other: ParaId,
) -> Map<LeasePeriod, Seq<ParaId>> {
    m.map_values(|ids: Seq<ParaId>| renamed(ids, one, other))
}

/// Puts each of two paras where the other stands in a list.
pub fn swap_ids(ids: &mut Vec<ParaId>, one: ParaId, other: ParaId)
    ensures
        final(ids)@ == renamed(old(ids)@, one, other),
{
    let mut i: usize = 0;
    while i < ids.len()
        invariant
            i <= ids@.len() == old(ids)@.len(),
            forall|j: int|
                0 <= j < ids@.len() ==> #[trigger] ids@[j] == if j < i {
                    counterpart(old(ids)@[j], one, other)
                } else {
                    old(ids)@[j]
                },
        decreases ids@.len() - i,
    {
        let id: ParaId = ids[i];
        if id == one {
            ids[i] = other;
        } else if id == other {
            ids[i] = one;
        }
        i = i + 1;
    }
    assert(ids@ =~= renamed(old(ids)@, one, other));
}

/// Puts each of two paras where the other stands in every list of a map.
pub fn swap_in_lists(m: &mut BTreeMap<LeasePeriod, Vec<ParaId>>, one: ParaId, other: ParaId)
    ensures
        lists(final(m)@) == renamed_in_all(lists(old(m)@), one, other),
{
    let ghost before = lists(m@);
    let mut periods: Vec<LeasePeriod> = Vec::new();
    let keys = m.keys();
    let ghost all = keys.remaining().unref();
    assert(all.no_duplicates()) by {
        assert(forall|i: int| 0 <= i < all.len() ==> all[i] == *#[trigger] keys.remaining()[i]);
    }
    for period in it: keys
        invariant
            it.seq().unref() == all,
            it.seq().len() == all.len(),
            periods@ == all.take(it.index() as int),
    {
        assert(*period == all[it.index() as int]);
        periods.push(*period);
    }
    assert(periods@ =~= all);
    let mut i: usize = 0;
    while i < periods.len()
        invariant
            i <= periods@.len(),
            periods@.no_duplicates(),
            periods@.to_set() == before.dom(),
            lists(m@).dom() == before.dom(),
            forall|j: int|
                0 <= j < periods@.len() ==> lists(m@)[#[trigger] periods@[j]] == if j < i {
                    renamed(before[periods@[j]], one, other)
                } else {
                    before[periods@[j]]
                },
        decreases periods@.len() - i,
    {
        let period: LeasePeriod = periods[i];
        assert(periods@.to_set().contains(periods@[i as int]));
        let ghost now = m@;
        proof {
            lemma_lists_remove(now, period);
        }
        if let Some(mut ids) = m.remove(&period) {
            swap_ids(&mut ids, one, other);
            proof {
                lemma_lists_insert(now.remove(period), period, ids);
            }
            m.insert(period, ids);
        }
        i = i + 1;
    }
    assert forall|period: LeasePeriod| before.contains_key(period) implies #[trigger] lists(
        m@,
    )[period] == renamed(before[period], one, other) by {
        assert(periods@.to_set().contains(period));
        let j = choose|j: int| 0 <= j < periods@.len() && periods@[j] == period;
        assert(lists(m@)[periods@[j]] == renamed(before[period], one, other));
    }
    assert(lists(m@) =~= renamed_in_all(before, one, other));
}

/// Swaps what a map holds for two paras.
pub fn swap_entries<V>(m: &mut BTreeMap<ParaId, V>, one: ParaId, other: ParaId)
    ensures
        final(m)@ == exchanged(old(m)@, one, other),
{
    let value_of_one: Option<V> = m.remove(&one);
    let value_of_other: Option<V> = m.remove(&other);
    if let Some(value) = value_of_one {
        m.insert(other, value);
    }
    if let Some(value) = value_of_other {
        m.insert(one, value);
    }
    assert(m@ =~= exchanged(old(m)@, one, other));
}

impl<AccountId> ModuleView<AccountId> {
    /// Neither of two paras is still on-boarding.
    pub open spec fn both_deployed(self, one: ParaId, other: ParaId) -> bool {
        !self.onboarding.contains_key(one) && !self.onboarding.contains_key(other)
    }

    /// `after` is this state with `one` and `other` swapped: their leases and the deposits held for
    /// them, the lease periods in which they should be parachains, their off-boarding accounts, and
    /// whether they are managed.
    pub open spec fn swapped(self, after: Self, one: ParaId, other: ParaId) -> bool {
        &&& after == ModuleView {
            managed_ids: after.managed_ids,
            deposits: exchanged(self.deposits, one, other),
            leased: renamed_in_all(self.leased, one, other),
            offboarding: exchanged(self.offboarding, one, other),
            ..self
        }
        &&& existence_swapped(self.managed_ids, after.managed_ids, one, other)
    }
}

impl<AccountId: Account> SwapAux for Module<AccountId> {
    open spec fn can_swap(&self, one: ParaId, other: ParaId) -> bool {
        self@.both_deployed(one, other)
    }

    open spec fn is_swappable(&self) -> bool {
        self.well_formed()
    }

    fn ensure_can_swap(&self, one: ParaId, other: ParaId) -> (result: Result<(), &'static str>)
        ensures
            result matches Err(reason) ==> reason@ == "can't swap an undeployed parachain"@,
    {
        if self.onboarding.contains_key(&one) || self.onboarding.contains_key(&other) {
            return Err("can't swap an undeployed parachain");
        }
        Ok(())
    }

    fn on_swap(&mut self, one: ParaId, other: ParaId) -> (result: Result<(), &'static str>)
        ensures
            result is Ok,
            old(self)@.swapped(final(self)@, one, other),
    {
        let ghost before = self@;
        swap_entries(&mut self.offboarding, one, other);
        swap_entries(&mut self.deposits, one, other);
        assert(self@.deposits =~= exchanged(before.deposits, one, other));
        swap_in_lists(&mut self.leased, one, other);
        proof {
            lemma_ascending(before.managed_ids);
        }
        swap_ordered_existence(self.managed_ids.as_mut_slice(), one, other);
        proof {
            lemma_existence_swap_keeps_distinct(
                before.managed_ids,
                self@.managed_ids,
                one,
                other,
            );
            lemma_ascending(self@.managed_ids);
        }
        Ok(())
    }
}

} // verus!
