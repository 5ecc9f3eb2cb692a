//! The turn from one lease period to the next.

use crate::account::Account;
use crate::bidder::IncomingParachain;
use crate::deposits::{amount_of, end_first_period, refund, Deposit};
use crate::dispatch::{Action, ActionView, Event};
use crate::primitives::{Balance, BlockNumber, LeasePeriod, ParaId, Weight};
use crate::state::{
    ascending, lemma_incoming_remove, lemma_lists_insert, lemma_lists_remove, list_at, Module,
    ModuleView,
};
use vstd::prelude::*;

verus! {

impl<AccountId: Account> ModuleView<AccountId> {
    /// The lease period that has just ended was the last one of the para's leases.
    pub open spec fn is_ending(self, id: ParaId) -> bool {
        self.deposits_of(id).len() == 1
    }

    /// The para's leases go on into the next lease period, or begin later.
    pub open spec fn is_continuing(self, id: ParaId) -> bool {
        self.deposits_of(id).len() > 1
    }

    /// The account that gets what is still on deposit for a para once it is off-boarded.
    pub open spec fn offboarding_account(self, id: ParaId) -> AccountId {
        if self.offboarding.contains_key(id) {
            self.offboarding[id]
        } else {
            AccountId::spec_unset()
        }
    }

    /// What the host is asked for when a lease period of the para `id` has ended.
    ///
    /// If it was the last one, the para is deregistered, unless it was never registered in the
    /// first place, and the full deposit is returned to the off-boarding account. Otherwise what
    /// need not be held any more is returned to the para itself.
    pub open spec fn settlement(self, id: ParaId) -> Seq<ActionView<AccountId>> {
        let deposits = self.deposits_of(id);
        if self.is_ending(id) {
            let returned = seq![
                ActionView::DepositCreating {
                    who: self.offboarding_account(id),
                    amount: amount_of(deposits[0]),
                },
            ];
            if self.onboarding.contains_key(id) {
                returned
            } else {
                seq![ActionView::DeregisterPara { id }] + returned
            }
        } else if self.is_continuing(id) {
            match refund(deposits) {
                Some(rebate) => seq![
                    ActionView::DepositCreating {
                        who: AccountId::spec_of_para(id),
                        amount: rebate,
                    },
                ],
                None => seq![],
            }
        } else {
            seq![]
        }
    }

    /// What the host is asked for when a lease period of each of the paras `ids` has ended.
    pub open spec fn settlements(self, ids: Seq<ParaId>) -> Seq<ActionView<AccountId>>
        decreases ids.len(),
    {
        if ids.len() == 0 {
            seq![]
        } else {
            self.settlements(ids.drop_last()) + self.settlement(ids.last())
        }
    }

    /// The state once a lease period of each of the paras `ids` has ended: those whose last lease
    /// period it was are forgotten, and of the others the first deposit is.
    pub open spec fn settled(self, ids: Seq<ParaId>) -> Self {
        ModuleView {
            deposits: Map::new(
                |id: ParaId|
                    self.deposits.contains_key(id) && !(ids.contains(id) && self.is_ending(id)),
                |id: ParaId|
                    if ids.contains(id) && self.is_continuing(id) {
                        self.deposits[id].drop_first()
                    } else {
                        self.deposits[id]
                    },
            ),
            onboarding: Map::new(
                |id: ParaId|
                    self.onboarding.contains_key(id) && !(ids.contains(id) && self.is_ending(id)),
                |id: ParaId| self.onboarding[id],
            ),
            offboarding: Map::new(
                |id: ParaId|
                    self.offboarding.contains_key(id) && !(ids.contains(id) && self.is_ending(id)),
                |id: ParaId| self.offboarding[id],
            ),
            actions: self.actions + self.settlements(ids),
            ..self
        }
    }

    /// The para is on-boarding, and its deployment information is fully set.
    pub open spec fn is_deployable(self, id: ParaId) -> bool {
        self.onboarding.contains_key(id) && self.onboarding[id].1 is Deploy
    }

    /// The request to register a para with its deployment information.
    pub open spec fn deployment(self, id: ParaId) -> ActionView<AccountId> {
        ActionView::RegisterPara {
            id,
            parachain: true,
            code: self.onboarding[id].1->Deploy_code,
            initial_head_data: self.onboarding[id].1->Deploy_initial_head_data,
        }
    }

    /// What the host is asked for when the paras `ids` are due to be commissioned: each one that
    /// is deployable is registered, once.
    pub open spec fn deployments(self, ids: Seq<ParaId>) -> Seq<ActionView<AccountId>>
        decreases ids.len(),
    {
        if ids.len() == 0 {
            seq![]
        } else if self.is_deployable(ids.last()) && !ids.drop_last().contains(ids.last()) {
            self.deployments(ids.drop_last()).push(self.deployment(ids.last()))
        } else {
            self.deployments(ids.drop_last())
        }
    }

    /// The state once the paras `ids` have been commissioned: those that were deployable are no
    /// longer on-boarding.
    pub open spec fn deployed(self, ids: Seq<ParaId>) -> Self {
        ModuleView {
            onboarding: Map::new(
                |id: ParaId|
                    self.onboarding.contains_key(id) && !(ids.contains(id) && self.is_deployable(
                        id,
                    )),
                |id: ParaId| self.onboarding[id],
            ),
            actions: self.actions + self.deployments(ids),
            ..self
        }
    }

    /// The state once the lease period `index` has begun: it has been announced, every managed
    /// para has been settled, and is managed no more unless its leases go on, and the paras that
    /// are due in the period have been commissioned.
    pub open spec fn period_started(self, index: LeasePeriod) -> Self {
        let announced = self.asked(ActionView::DepositEvent(Event::NewLeasePeriod(index)));
        let settled = ModuleView {
            managed_ids: self.managed_ids.filter(|id: ParaId| self.is_continuing(id)),
            onboard_queue: self.onboard_queue.remove(index),
            ..announced.settled(self.managed_ids)
        };
        settled.deployed(list_at(self.onboard_queue, index))
    }
}

/// What a list holds once one ID more stands in it.
proof fn lemma_push_contains(ids: Seq<ParaId>, id: ParaId)
    ensures
        forall|other: ParaId| #[trigger]
            ids.push(id).contains(other) <==> ids.contains(other) || other == id,
{
    let both = ids.push(id);
    assert forall|other: ParaId| #[trigger] both.contains(other) <==> ids.contains(other) || other
        == id by {
        if ids.contains(other) {
            let i = choose|i: int| 0 <= i < ids.len() && ids[i] == other;
            assert(both[i] == other);
        }
        if other == id {
            assert(both[ids.len() as int] == id);
        }
    }
}

/// Settling one para more.
proof fn lemma_settled_push<AccountId: Account>(
    s: ModuleView<AccountId>,
    ids: Seq<ParaId>,
    id: ParaId,
)
    requires
        !ids.contains(id),
    ensures
        s.settled(ids).settled(seq![id]) == s.settled(ids.push(id)),
{
    let t = s.settled(ids);
    let both = ids.push(id);
    assert(both.drop_last() =~= ids);
    assert(seq![id].drop_last() =~= Seq::empty());
    assert(t.deposits_of(id) == s.deposits_of(id));
    assert(t.settlement(id) == s.settlement(id));
    assert(t.settlements(seq![id].drop_last()) == Seq::<ActionView<AccountId>>::empty());
    assert(t.settlements(seq![id]) =~= s.settlement(id));
    assert(s.settlements(both) == s.settlements(ids) + s.settlement(id));
    lemma_push_contains(ids, id);
    lemma_push_contains(Seq::empty(), id);
    assert(Seq::empty().push(id) =~= seq![id]);
    let u = t.settled(seq![id]);
    let w = s.settled(both);
    assert(u.deposits =~= w.deposits);
    assert(u.onboarding =~= w.onboarding);
    assert(u.offboarding =~= w.offboarding);
    assert(u.actions =~= w.actions);
}

/// Commissioning one para more.
proof fn lemma_deployed_push<AccountId: Account>(
    s: ModuleView<AccountId>,
    ids: Seq<ParaId>,
    id: ParaId,
)
    ensures
        s.deployed(ids).deployed(seq![id]) == s.deployed(ids.push(id)),
{
    let t = s.deployed(ids);
    let both = ids.push(id);
    assert(both.drop_last() =~= ids);
    assert(seq![id].drop_last() =~= Seq::empty());
    assert(t.deployments(seq![id].drop_last()) == Seq::<ActionView<AccountId>>::empty());
    lemma_push_contains(ids, id);
    lemma_push_contains(Seq::empty(), id);
    assert(Seq::empty().push(id) =~= seq![id]);
    let u = t.deployed(seq![id]);
    let w = s.deployed(both);
    assert(u.onboarding =~= w.onboarding);
    assert(u.actions =~= w.actions);
}

/// Picking IDs out of an ascending list leaves them ascending, and adds none.
pub(crate) proof fn lemma_filter_ascending(ids: Seq<ParaId>, keep: spec_fn(ParaId) -> bool)
    requires
        ascending(ids),
    ensures
        ascending(ids.filter(keep)),
        forall|id: ParaId| #[trigger]
            ids.filter(keep).contains(id) <==> ids.contains(id) && keep(id),
    decreases ids.len(),
{
    reveal(Seq::filter);
    if ids.len() > 0 {
        let rest = ids.drop_last();
        let last = ids.last();
        lemma_filter_ascending(rest, keep);
        let picked = rest.filter(keep);
        assert(ids =~= rest.push(last));
        lemma_push_contains(rest, last);
        lemma_push_contains(picked, last);
        assert forall|i: int, j: int| 0 <= i < j < ids.filter(keep).len() implies ids.filter(
            keep,
        )[i] < ids.filter(keep)[j] by {
            if j == picked.len() {
                assert(picked.contains(picked[i]));
                let k = choose|k: int| 0 <= k < rest.len() && rest[k] == picked[i];
                assert(ids[k] < ids[ids.len() - 1]);
            }
        }
    }
}

impl<AccountId: Account> Module<AccountId> {
    /// Settles the para `id` now that a lease period has ended. Returns whether the para's leases
    /// go on.
    fn settle(&mut self, id: ParaId) -> (continuing: bool)
        ensures
            final(self)@ == old(self)@.settled(seq![id]),
            continuing == old(self)@.is_continuing(id),
    {
        let ghost before = self@;
        proof {
            assert(seq![id].drop_last() =~= Seq::empty());
            lemma_push_contains(Seq::empty(), id);
            assert(Seq::empty().push(id) =~= seq![id]);
            assert(before.settlements(seq![id].drop_last()) == Seq::<ActionView<AccountId>>::empty());
            assert(before.settlements(seq![id]) =~= before.settlement(id));
        }
        let count: usize = match self.deposits.get(&id) {
            Some(deposits) => deposits.len(),
            None => 0,
        };
        if count == 0 {
            // Never the case for a para that is managed for its deposits.
            assert(self@ =~= before.settled(seq![id]));
            return false;
        }
        let mut deposits: Vec<Deposit<AccountId>> = Vec::new();
        let taken: Option<Vec<Deposit<AccountId>>> = self.deposits.remove(&id);
        if let Some(found) = taken {
            deposits = found;
        }
        proof {
            lemma_lists_remove(old(self).deposits@, id);
            assert(deposits@ == before.deposits_of(id));
        }
        if count == 1 {
            // Just one entry, which corresponds to the now-ended lease period. Time
            // to decommission this chain.
            let pending = self.onboarding.remove(&id);
            proof {
                lemma_incoming_remove(old(self).onboarding@, id);
            }
            if pending.is_none() {
                // Only unregister it if it was actually registered in the first place.
                // If the on-boarding entry still existed, then it was never actually
                // commissioned.
                self.ask(Action::DeregisterPara { id });
            }
            // Return the full deposit to the off-boarding account.
            let who: AccountId = match self.offboarding.remove(&id) {
                Some(account) => account,
                None => AccountId::unset(),
            };
            let amount: Balance = match deposits[0] {
                Some(deposit) => deposit.1,
                None => 0,
            };
            self.ask(Action::DepositCreating { who, amount });
            assert(self@ =~= before.settled(seq![id]));
            false
        } else {
            // The parachain entry is continuing into the next lease period.
            // We need to pop the first deposit entry, which corresponds to the now-
            // ended lease period.
            let rebate: Option<Balance> = end_first_period(&mut deposits);
            proof {
                lemma_lists_insert(self.deposits@, id, deposits);
            }
            self.deposits.insert(id, deposits);
            // If less has to be held than what we were holding previously, then return the
            // difference to the parachain itself.
            if let Some(amount) = rebate {
                self.ask(Action::DepositCreating { who: AccountId::of_para(id), amount });
            }
            assert(self@ =~= before.settled(seq![id]));
            // We keep this entry around until the next lease period.
            true
        }
    }

    /// Registers the para `id`, and drops its now-redundant on-boarding entry, if its deployment
    /// information is fully set.
    fn deploy(&mut self, id: ParaId)
        ensures
            final(self)@ == old(self)@.deployed(seq![id]),
    {
        let ghost before = self@;
        proof {
            assert(seq![id].drop_last() =~= Seq::empty());
            lemma_push_contains(Seq::empty(), id);
            assert(Seq::empty().push(id) =~= seq![id]);
            assert(before.deployments(seq![id].drop_last()) == Seq::<ActionView<AccountId>>::empty());
        }
        let due: bool = match self.onboarding.get(&id) {
            Some(item) => match &item.1 {
                IncomingParachain::Deploy { .. } => true,
                _ => false,
            },
            None => false,
        };
        if due {
            proof {
                lemma_incoming_remove(self.onboarding@, id);
            }
            if let Some((_, IncomingParachain::Deploy { code, initial_head_data })) =
                self.onboarding.remove(&id) {
                self.ask(Action::RegisterPara { id, parachain: true, code, initial_head_data });
            }
        }
        assert(self@ =~= before.deployed(seq![id]));
    }

    /// A new lease period is beginning. We're at the start of the first block of it.
    ///
    /// We need to on-board and off-board parachains as needed. We should also handle reducing/
    /// returning deposits.
    pub fn manage_lease_period_start(&mut self, lease_period_index: LeasePeriod)
        requires
            old(self).well_formed(),
        ensures
            final(self).well_formed(),
            final(self)@ == old(self)@.period_started(lease_period_index),
    {
        let ghost before = self@;
        self.ask(Action::DepositEvent(Event::NewLeasePeriod(lease_period_index)));
        let ghost announced = self@;
        let ghost ids = before.managed_ids;
        let ghost keep = |id: ParaId| before.is_continuing(id);
        // First, bump off old deposits and decommission any managed chains that are coming
        // to a close.
        let mut kept: Vec<ParaId> = Vec::new();
        let mut i: usize = 0;
        assert(ids.take(0).filter(keep) =~= Seq::empty()) by {
            reveal(Seq::filter);
        }
        assert(announced.settled(ids.take(0)) =~= announced);
        while i < self.managed_ids.len()
            invariant
                i <= ids.len(),
                ascending(ids),
                announced.managed_ids == ids,
                announced.deposits == before.deposits,
                keep == (|id: ParaId| before.is_continuing(id)),
                self@ == announced.settled(ids.take(i as int)),
                kept@ == ids.take(i as int).filter(keep),
            decreases ids.len() - i,
        {
            let id: ParaId = self.managed_ids[i];
            let ghost done = ids.take(i as int);
            proof {
                assert(!done.contains(id));
                assert(done.push(id) =~= ids.take(i + 1));
                lemma_settled_push(announced, done, id);
                assert(self@.deposits_of(id) == before.deposits_of(id));
            }
            let continuing: bool = self.settle(id);
            if continuing {
                kept.push(id);
            }
            proof {
                reveal(Seq::filter);
                assert(ids.take(i + 1).drop_last() =~= done);
            }
            i = i + 1;
        }
        self.managed_ids = kept;
        proof {
            assert(ids.take(i as int) =~= ids);
            lemma_filter_ascending(ids, keep);
        }
        // Deploy any new chains that are due to be commissioned.
        let mut queue: Vec<ParaId> = Vec::new();
        proof {
            lemma_lists_remove(self.onboard_queue@, lease_period_index);
        }
        let taken: Option<Vec<ParaId>> = self.onboard_queue.remove(&lease_period_index);
        if let Some(found) = taken {
            queue = found;
        }
        assert(queue@ == list_at(before.onboard_queue, lease_period_index));
        let ghost settled = self@;
        let mut j: usize = 0;
        assert(settled.deployed(queue@.take(0)) =~= settled);
        while j < queue.len()
            invariant
                j <= queue@.len(),
                self@ == settled.deployed(queue@.take(j as int)),
            decreases queue@.len() - j,
        {
            proof {
                lemma_deployed_push(settled, queue@.take(j as int), queue@[j as int]);
                assert(queue@.take(j as int).push(queue@[j as int]) =~= queue@.take(j + 1));
            }
            self.deploy(queue[j]);
            j = j + 1;
        }
        assert(queue@.take(j as int) =~= queue@);
    }

    /// The block `n` is being initialized. If we're beginning a new lease period then handle that.
    pub fn on_initialize(&mut self, n: BlockNumber) -> (weight: Weight)
        requires
            old(self).well_formed(),
        ensures
            weight == 0,
            final(self).well_formed(),
            final(self)@ == if n % old(self)@.lease_period == 0 {
                old(self)@.period_started((n / old(self)@.lease_period) as LeasePeriod)
            } else {
                old(self)@
            },
    {
        let lease_period: BlockNumber = self.lease_period;
        let lease_period_index: LeasePeriod = n / lease_period;
        if n % lease_period == 0 {
            self.manage_lease_period_start(lease_period_index);
        }
        0
    }
}

} // verus!
