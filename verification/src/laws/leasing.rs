//! What leasing a slot out does, field by field.

use crate::deposits::Deposit;
use crate::dispatch::{ActionView, Event, LeaseRange};
use crate::laws::deposits::{
    are_deposits_of, held_is_the_greatest_of_ones_deposits, is_held_of,
    placing_a_lease_fills_what_is_free,
};
use crate::primitives::{Balance, LeasePeriod, ParaId};
use crate::state::ModuleView;
use vstd::prelude::*;

verus! {

/// What a lease lacks is its amount less the greatest of the deposits that the leaser made for the
/// para already, whatever else is known of the para; where more is held, nothing is reserved.
pub proof fn held_and_lacking_make_the_amount<AccountId>(
    s: ModuleView<AccountId>,
    para: ParaId,
    leaser: AccountId,
    amount: Balance,
    deposits: Seq<Deposit<AccountId>>,
    held: Balance,
)
    requires
        are_deposits_of(s.deposits, para, deposits),
        is_held_of(deposits, leaser, held),
    ensures
        s.deposit_held(para, leaser) == held,
        match s.additional_deposit(para, leaser, amount) {
            Some(additional) => held + additional == amount,
            None => held > amount,
        },
{
    assert(s.deposits_of(para) =~= deposits);
    held_is_the_greatest_of_ones_deposits(deposits, leaser, held);
}

/// A lease deposits `amount` of `leaser` for each of its lease periods that was free, and leaves
/// every other period as it was. The deposits reach to the end of the lease at least, and no further
/// than they did unless the lease does; where nothing is deposited within them, they hold nothing.
pub proof fn lease_deposits_for_its_free_periods<AccountId>(
    s: ModuleView<AccountId>,
    para: ParaId,
    leaser: AccountId,
    amount: Balance,
    period_begin: LeasePeriod,
    period_count: LeasePeriod,
    deposits: Seq<Deposit<AccountId>>,
    i: int,
)
    requires
        are_deposits_of(s.deposits, para, deposits),
        s.block_number / s.lease_period <= period_begin,
    ensures
        ({
            let t = s.leased_out(para, leaser, amount, period_begin, period_count);
            let after = t.deposits[para];
            let begin = period_begin - s.block_number / s.lease_period;
            let end = begin + period_count;
            let taken = 0 <= i < deposits.len() && deposits[i] is Some;
            &&& t.deposits.contains_key(para)
            &&& after.len() >= deposits.len()
            &&& after.len() >= end
            &&& after.len() == deposits.len() || after.len() == end
            &&& taken ==> after[i] == deposits[i]
            &&& begin <= i < end && !taken ==> after[i] == Some((leaser, amount))
            &&& 0 <= i < after.len() && !(begin <= i < end) && !taken ==> after[i] is None
        }),
{
    assert(s.deposits_of(para) =~= deposits);
    placing_a_lease_fills_what_is_free(
        deposits,
        period_begin - s.block_number / s.lease_period,
        period_count as int,
        leaser,
        amount,
        i,
    );
}

/// A lease lists the para, after all others, in each of its lease periods, once more than before; and
/// changes the deposits of no other para, and none at all if it begins in the past.
pub proof fn lease_lists_the_para<AccountId>(
    s: ModuleView<AccountId>,
    para: ParaId,
    leaser: AccountId,
    amount: Balance,
    period_begin: LeasePeriod,
    period_count: LeasePeriod,
    other: ParaId,
    period: LeasePeriod,
)
    requires
        other != para,
    ensures
        ({
            let t = s.leased_out(para, leaser, amount, period_begin, period_count);
            let within = period_begin <= period && period < period_begin + period_count;
            &&& within ==> {
                &&& t.leased.contains_key(period)
                &&& t.leased[period].len() > 0
                &&& t.leased[period].last() == para
                &&& s.leased.contains_key(period) ==> t.leased[period].drop_last()
                    == s.leased[period]
                &&& !s.leased.contains_key(period) ==> t.leased[period].len() == 1
            }
            &&& !within ==> {
                &&& t.leased.contains_key(period) == s.leased.contains_key(period)
                &&& s.leased.contains_key(period) ==> t.leased[period] == s.leased[period]
            }
            &&& t.deposits.contains_key(other) == s.deposits.contains_key(other)
            &&& s.deposits.contains_key(other) ==> t.deposits[other] == s.deposits[other]
            &&& period_begin < s.block_number / s.lease_period ==> t.deposits == s.deposits
            &&& t.lease_period == s.lease_period
            &&& t.block_number == s.block_number
            &&& t.managed_ids == s.managed_ids
            &&& t.onboard_queue == s.onboard_queue
            &&& t.onboarding == s.onboarding
            &&& t.offboarding == s.offboarding
        }),
{
    let t = s.leased_out(para, leaser, amount, period_begin, period_count);
    if s.leased.contains_key(period) {
        assert(s.leased[period].push(para).drop_last() =~= s.leased[period]);
    }
}

/// A lease is announced, and nothing else is asked for: the para, the lease periods, what was
/// reserved for it, which together with what was held makes the amount, and the amount.
pub proof fn lease_is_announced<AccountId>(
    s: ModuleView<AccountId>,
    para: ParaId,
    leaser: AccountId,
    amount: Balance,
    period_begin: LeasePeriod,
    period_count: LeasePeriod,
    deposits: Seq<Deposit<AccountId>>,
    held: Balance,
    extra: Balance,
)
    requires
        are_deposits_of(s.deposits, para, deposits),
        is_held_of(deposits, leaser, held),
        held <= amount ==> held + extra == amount,
        held > amount ==> extra == 0,
    ensures
        ({
            let t = s.leased_out(para, leaser, amount, period_begin, period_count);
            &&& t.actions.len() == s.actions.len() + 1
            &&& t.actions.drop_last() == s.actions
            &&& t.actions.last() == ActionView::<AccountId>::DepositEvent(
                Event::WonRenewal(para, LeaseRange { period_begin, period_count }, extra, amount),
            )
        }),
{
    held_and_lacking_make_the_amount(s, para, leaser, amount, deposits, held);
    let t = s.leased_out(para, leaser, amount, period_begin, period_count);
    assert(t.actions.drop_last() =~= s.actions);
}

} // verus!
