//! Leasing slots out.

use crate::account::Account;
use crate::deposits::{held_amount, place_lease, with_lease, Deposit};
use crate::dispatch::{Action, ActionView, Event, LeaseRange};
use crate::primitives::{Balance, BlockNumber, LeasePeriod, ParaId};
use crate::state::{lemma_lists_insert, lemma_lists_remove, list_at, Module, ModuleView};
use crate::traits::Leaser;
use vstd::prelude::*;

verus! {

impl<AccountId> ModuleView<AccountId> {
    /// What has to be reserved for a lease at `amount` beyond what is held of `leaser` for `para`
    /// already. There is nothing to reserve if more than `amount` is held.
    pub open spec fn additional_deposit(
        self,
        para: ParaId,
        leaser: AccountId,
        amount: Balance,
    ) -> Option<Balance> {
        let held = self.deposit_held(para, leaser);
        if amount >= held {
            Some((amount - held) as Balance)
        } else {
            None
        }
    }

    /// The announcement of a lease.
    pub open spec fn lease_announcement(
        self,
        para: ParaId,
        leaser: AccountId,
        amount: Balance,
        period_begin: LeasePeriod,
        period_count: LeasePeriod,
    ) -> ActionView<AccountId> {
        let extra = match self.additional_deposit(para, leaser, amount) {
            Some(additional) => additional,
            None => 0,
        };
        ActionView::DepositEvent(
            Event::WonRenewal(para, LeaseRange { period_begin, period_count }, extra, amount),
        )
    }

    /// The paras that should be parachains in each lease period, once `para` is one from
    /// `period_begin` on for `period_count` lease periods.
    pub open spec fn leased_to(
        self,
        para: ParaId,
        period_begin: int,
        period_count: int,
    ) -> Map<LeasePeriod, Seq<ParaId>> {
        Map::new(
            |p: LeasePeriod|
                self.leased.contains_key(p) || period_begin <= p < period_begin + period_count,
            |p: LeasePeriod|
                if period_begin <= p < period_begin + period_count {
                    list_at(self.leased, p).push(para)
                } else {
                    self.leased[p]
                },
        )
    }

    /// The state once a lease has been granted, and all that is needed for it is reserved.
    ///
    /// A lease that begins in the past leaves the deposits as they are.
    pub open spec fn leased_out(
        self,
        para: ParaId,
        leaser: AccountId,
        amount: Balance,
        period_begin: LeasePeriod,
        period_count: LeasePeriod,
    ) -> Self {
        let index = self.lease_period_index();
        ModuleView {
            leased: self.leased_to(para, period_begin as int, period_count as int),
            deposits: if period_begin >= index {
                self.deposits.insert(
                    para,
                    with_lease(
                        self.deposits_of(para),
                        period_begin - index,
                        period_count as int,
                        leaser,
                        amount,
                    ),
                )
            } else {
                self.deposits
            },
            actions: self.actions.push(
                self.lease_announcement(para, leaser, amount, period_begin, period_count),
            ),
            ..self
        }
    }
}

impl<AccountId: Account> Module<AccountId> {
    /// What has to be reserved on `leaser`'s account for a lease of a slot for `para` at `amount`,
    /// beyond what is held there for `para` already.
    pub fn additional_deposit(
        &self,
        para: ParaId,
        leaser: &AccountId,
        amount: Balance,
    ) -> (additional: Option<Balance>)
        ensures
            additional == self@.additional_deposit(para, *leaser, amount),
    {
        amount.checked_sub(self.deposit_held(para, leaser))
    }

    /// Remembers that `para` should be a parachain from `period_begin` on for `period_count` lease
    /// periods.
    fn schedule(&mut self, para: ParaId, period_begin: LeasePeriod, period_count: LeasePeriod)
        requires
            period_begin + period_count <= LeasePeriod::MAX,
        ensures
            final(self)@ == (ModuleView {
                leased: old(self)@.leased_to(para, period_begin as int, period_count as int),
                ..old(self)@
            }),
    {
        let ghost before = self@;
        let period_end: LeasePeriod = period_begin + period_count;
        let mut p: LeasePeriod = period_begin;
        assert(before.leased_to(para, period_begin as int, 0) =~= before.leased);
        while p < period_end
            invariant
                period_begin <= p <= period_end == period_begin + period_count,
                self@ == (ModuleView {
                    leased: before.leased_to(para, period_begin as int, p - period_begin),
                    ..before
                }),
            decreases period_end - p,
        {
            let mut paras: Vec<ParaId> = Vec::new();
            proof {
                lemma_lists_remove(self.leased@, p);
            }
            let ghost current = self@.leased;
            let taken: Option<Vec<ParaId>> = self.leased.remove(&p);
            if let Some(found) = taken {
                paras = found;
            }
            assert(paras@ == list_at(current, p));
            assert(list_at(current, p) == list_at(before.leased, p));
            paras.push(para);
            proof {
                lemma_lists_insert(self.leased@, p, paras);
            }
            self.leased.insert(p, paras);
            assert(self@.leased =~= before.leased_to(
                para,
                period_begin as int,
                p - period_begin + 1,
            ));
            p = p + 1;
        }
    }

    /// Carries a lease out, given how the host answered the request to reserve what
    /// `additional_deposit` says. Where there was nothing to reserve, the answer is not looked at.
    pub fn lease_out_given<E>(
        &mut self,
        para: ParaId,
        leaser: AccountId,
        amount: Balance,
        period_begin: LeasePeriod,
        period_count: LeasePeriod,
        reserved: Result<(), E>,
    ) -> (result: Result<(), E>)
        requires
            old(self).well_formed(),
            period_begin + period_count <= LeasePeriod::MAX,
        ensures
            final(self).well_formed(),
            result == if old(self)@.additional_deposit(para, leaser, amount) is Some {
                reserved
            } else {
                Ok(())
            },
            final(self)@ == if result is Ok {
                old(self)@.leased_out(para, leaser, amount, period_begin, period_count)
            } else {
                old(self)@
            },
    {
        let ghost before = self@;
        // Figure out whether we already have some funds of `leaser` held in reserve for `para`.
        //  If so, then we can deduct those from the amount that we need to reserve.
        let mut extra: Balance = 0;
        if let Some(additional) = self.additional_deposit(para, &leaser, amount) {
            match reserved {
                Ok(done) => {
                    assert(done == ());
                },
                Err(error) => {
                    return Err(error);
                },
            }
            extra = additional;
        }
        // Remember that this should be leased.
        self.schedule(para, period_begin, period_count);
        let range: LeaseRange = LeaseRange { period_begin, period_count };
        self.ask(Action::DepositEvent(Event::WonRenewal(para, range, extra, amount)));
        // Finally, we update the deposit held so it is `amount` for the new lease period
        // indices that were won in the auction.
        if let Some(offset) = period_begin.checked_sub(self.lease_period_index()) {
            // Should always succeed; for it to fail it would mean we auctioned a lease period
            // that already ended.
            let mut deposits: Vec<Deposit<AccountId>> = Vec::new();
            proof {
                lemma_lists_remove(self.deposits@, para);
            }
            let taken: Option<Vec<Deposit<AccountId>>> = self.deposits.remove(&para);
            if let Some(found) = taken {
                deposits = found;
            }
            assert(deposits@ == before.deposits_of(para));
            place_lease(&mut deposits, offset as usize, period_count as usize, leaser, amount);
            proof {
                lemma_lists_insert(self.deposits@, para, deposits);
            }
            self.deposits.insert(para, deposits);
            assert(self@.deposits =~= before.leased_out(
                para,
                leaser,
                amount,
                period_begin,
                period_count,
            ).deposits);
        }
        assert(self@ =~= before.leased_out(para, leaser, amount, period_begin, period_count));
        Ok(())
    }
}

impl<AccountId: Account> Leaser for Module<AccountId> {
    type AccountId = AccountId;

    type LeasePeriod = BlockNumber;

    type Balance = Balance;

    open spec fn is_ready(&self) -> bool {
        self.well_formed()
    }

    open spec fn is_lease(period_begin: BlockNumber, period_count: BlockNumber) -> bool {
        period_begin + period_count <= BlockNumber::MAX
    }

    open spec fn held(&self, para: ParaId, leaser: AccountId) -> Balance {
        self@.deposit_held(para, leaser)
    }

    open spec fn lacking(&self, para: ParaId, leaser: AccountId, amount: Balance) -> Option<
        Balance,
    > {
        self@.additional_deposit(para, leaser, amount)
    }

    fn lease_out<E, F: FnOnce(AccountId, Balance) -> Result<(), E>>(
        &mut self,
        para: ParaId,
        leaser: AccountId,
        amount: Balance,
        period_begin: BlockNumber,
        period_count: BlockNumber,
        reserve: F,
    ) -> (result: Result<(), E>)
        ensures
            amount >= old(self)@.deposit_held(para, leaser) ==> call_ensures(
                reserve,
                (leaser, (amount - old(self)@.deposit_held(para, leaser)) as Balance),
                result,
            ),
            amount < old(self)@.deposit_held(para, leaser) ==> result is Ok,
            final(self)@ == if result is Ok {
                old(self)@.leased_out(para, leaser, amount, period_begin, period_count)
            } else {
                old(self)@
            },
    {
        let reserved: Result<(), E> = match self.additional_deposit(para, &leaser, amount) {
            Some(additional) => reserve(leaser, additional),
            None => Ok(()),
        };
        self.lease_out_given(para, leaser, amount, period_begin, period_count, reserved)
    }

    fn deposit_held(&self, para: ParaId, leaser: &AccountId) -> (amount: Balance) {
        match self.deposits.get(&para) {
            Some(deposits) => held_amount(deposits, leaser),
            None => 0,
        }
    }

    fn lease_period(&self) -> (period: BlockNumber)
        ensures
            period == self@.lease_period,
    {
        self.lease_period
    }

    fn lease_period_index(&self) -> (index: BlockNumber)
        ensures
            index == self@.lease_period_index(),
    {
        self.block_number / self.lease_period
    }
}

} // verus!
