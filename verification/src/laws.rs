//! What holds of the leasing system as a whole.

use crate::account::Account;
use crate::deposits::{
    amount_of, entry, greatest, held_of, lemma_greatest, lemma_greatest_is, locked, refund, share_of,
    with_lease, Deposit,
};
use crate::dispatch::{ActionView, DispatchError, Error, Event, Origin};
use crate::hashing::CodeHash;
use crate::lease_periods::lemma_filter_ascending;
use crate::onboarding::lemma_ascending;
use crate::ordered::{
    lemma_existence_swap_is_involution, lemma_existence_swap_keeps_distinct, lemma_ordered_unique,
};
use crate::primitives::{Balance, BlockNumber, LeasePeriod, ParaId, SubId};
use crate::state::{list_at, ModuleView};
use crate::swapping::{counterpart, renamed};
use vstd::prelude::*;

pub mod deposits;
pub mod lease_periods;
pub mod leasing;
pub mod onboarding;
pub mod state;
pub mod swapping;

verus! {

/// The amounts of `who` in a list of deposits.
pub(crate) open spec fn shares<AccountId>(deposits: Seq<Deposit<AccountId>>, who: AccountId) -> Seq<Balance> {
    deposits.map_values(|d: Deposit<AccountId>| share_of(d, who))
}

/// The amounts in a list of deposits.
pub(crate) open spec fn amounts<AccountId>(deposits: Seq<Deposit<AccountId>>) -> Seq<Balance> {
    deposits.map_values(|d: Deposit<AccountId>| amount_of(d))
}

/// A new lease takes nothing away from what is held of anyone.
proof fn lemma_with_lease_keeps_held<AccountId>(
    deposits: Seq<Deposit<AccountId>>,
    offset: int,
    count: int,
    leaser: AccountId,
    amount: Balance,
    who: AccountId,
)
    requires
        0 <= offset,
        0 <= count,
    ensures
        held_of(with_lease(deposits, offset, count, leaser, amount), who) >= held_of(deposits, who),
{
    let after = with_lease(deposits, offset, count, leaser, amount);
    lemma_greatest(shares(deposits, who));
    lemma_greatest(shares(after, who));
    if deposits.len() > 0 {
        let i = choose|i: int|
            0 <= i < shares(deposits, who).len() && #[trigger] shares(deposits, who)[i] == greatest(
                shares(deposits, who),
            );
        assert(shares(after, who)[i] >= shares(deposits, who)[i]);
    }
}

/// What is held of anyone for any para does not go down when a lease is granted.
pub proof fn lease_never_lowers_deposits<AccountId>(
    s: ModuleView<AccountId>,
    para: ParaId,
    leaser: AccountId,
    amount: Balance,
    period_begin: LeasePeriod,
    period_count: LeasePeriod,
    any_para: ParaId,
    anyone: AccountId,
)
    ensures
        s.leased_out(para, leaser, amount, period_begin, period_count).deposit_held(
            any_para,
            anyone,
        ) >= s.deposit_held(any_para, anyone),
{
    if period_begin >= s.lease_period_index() {
        lemma_with_lease_keeps_held(
            s.deposits_of(para),
            period_begin - s.lease_period_index(),
            period_count as int,
            leaser,
            amount,
            anyone,
        );
    }
}

/// Setting the deploy information of a para leaves what is held, and who is managed, as it was.
pub proof fn deploy_data_leaves_leases_alone<AccountId>(
    s: ModuleView<AccountId>,
    para: ParaId,
    code_hash: CodeHash,
    code_size: u32,
    initial_head_data: Seq<u8>,
    code: Seq<u8>,
    any_para: ParaId,
    anyone: AccountId,
)
    ensures
        ({
            let fixed = s.fixed(para, code_hash, code_size, initial_head_data);
            let elaborated = s.elaborated(para, code);
            &&& fixed.deposit_held(any_para, anyone) == s.deposit_held(any_para, anyone)
            &&& fixed.managed_ids == s.managed_ids
            &&& elaborated.deposit_held(any_para, anyone) == s.deposit_held(any_para, anyone)
            &&& elaborated.managed_ids == s.managed_ids
        }),
{
}

/// Once a lease that covers a free lease period is granted, the leaser has `amount` held for the
/// para in total, or what was held before, if that is more; and what had to be reserved is what was
/// lacking.
pub proof fn lease_holds_the_amount<AccountId>(
    s: ModuleView<AccountId>,
    para: ParaId,
    leaser: AccountId,
    amount: Balance,
    period_begin: LeasePeriod,
    period_count: LeasePeriod,
    free: LeasePeriod,
)
    requires
        s.lease_period_index() <= period_begin,
        period_begin <= free < period_begin + period_count,
        s.lease(para, free) is None,
    ensures
        ({
            let before = s.deposit_held(para, leaser);
            let after = s.leased_out(
                para,
                leaser,
                amount,
                period_begin,
                period_count,
            ).deposit_held(para, leaser);
            &&& after == if before <= amount {
                amount
            } else {
                before
            }
            &&& match s.additional_deposit(para, leaser, amount) {
                Some(additional) => before + additional == after,
                None => before == after,
            }
        }),
{
    let offset = period_begin - s.lease_period_index();
    let count = period_count as int;
    let deposits = s.deposits_of(para);
    let after = with_lease(deposits, offset, count, leaser, amount);
    let bound = if s.deposit_held(para, leaser) <= amount {
        amount
    } else {
        s.deposit_held(para, leaser)
    };
    let old_shares = shares(deposits, leaser);
    let new_shares = shares(after, leaser);
    lemma_greatest(old_shares);
    assert forall|i: int| 0 <= i < new_shares.len() implies #[trigger] new_shares[i] <= bound by {
        if i < deposits.len() {
            assert(old_shares[i] <= greatest(old_shares));
        }
    }
    let at = free - s.lease_period_index();
    assert(new_shares[at] == amount);
    if bound != amount {
        let i = choose|i: int|
            0 <= i < old_shares.len() && #[trigger] old_shares[i] == greatest(old_shares);
        assert(new_shares[i] == bound);
    }
    lemma_greatest_is(new_shares, bound);
}

/// A lease lasts from `period_begin` for `period_count` lease periods: the para is a parachain in
/// each of them, and is listed as one. What was leased before stays as it was, for this para and
/// for every other.
pub proof fn lease_lasts<AccountId>(
    s: ModuleView<AccountId>,
    para: ParaId,
    leaser: AccountId,
    amount: Balance,
    period_begin: LeasePeriod,
    period_count: LeasePeriod,
    any_para: ParaId,
    period: LeasePeriod,
)
    requires
        s.lease_period_index() <= period_begin,
    ensures
        ({
            let t = s.leased_out(para, leaser, amount, period_begin, period_count);
            let within = period_begin <= period < period_begin + period_count;
            &&& t.lease(any_para, period) == if any_para == para && within && s.lease(
                any_para,
                period,
            ) is None {
                Some((leaser, amount))
            } else {
                s.lease(any_para, period)
            }
            &&& list_at(t.leased, period) == if within {
                list_at(s.leased, period).push(para)
            } else {
                list_at(s.leased, period)
            }
        }),
{
}

/// A lease leaves what is held of anyone but the leaser as it was.
proof fn lemma_lease_of_another<AccountId>(
    s: ModuleView<AccountId>,
    para: ParaId,
    leaser: AccountId,
    amount: Balance,
    period_begin: LeasePeriod,
    period_count: LeasePeriod,
    who: AccountId,
)
    requires
        who != leaser,
    ensures
        s.leased_out(para, leaser, amount, period_begin, period_count).deposit_held(para, who)
            == s.deposit_held(para, who),
{
    if period_begin >= s.lease_period_index() {
        let deposits = s.deposits_of(para);
        let after = with_lease(
            deposits,
            period_begin - s.lease_period_index(),
            period_count as int,
            leaser,
            amount,
        );
        let old_shares = shares(deposits, who);
        let new_shares = shares(after, who);
        lemma_greatest(old_shares);
        assert forall|i: int| 0 <= i < new_shares.len() implies #[trigger] new_shares[i] <= greatest(
            old_shares,
        ) by {
            if i < deposits.len() {
                assert(old_shares[i] <= greatest(old_shares));
            }
        }
        if greatest(old_shares) > 0 {
            let i = choose|i: int|
                0 <= i < old_shares.len() && #[trigger] old_shares[i] == greatest(old_shares);
            assert(new_shares[i] == old_shares[i]);
        }
        lemma_greatest_is(new_shares, greatest(old_shares));
    }
}

/// What is reserved on `who`'s account when `leaser` leases a slot for `para` at `amount`.
pub open spec fn reserved_of<AccountId>(
    s: ModuleView<AccountId>,
    para: ParaId,
    leaser: AccountId,
    amount: Balance,
    who: AccountId,
) -> nat {
    match s.additional_deposit(para, leaser, amount) {
        Some(additional) => if who == leaser {
            additional as nat
        } else {
            0
        },
        None => 0,
    }
}

/// Of two leases of one para, over lease periods that are free and that do not overlap, it does not
/// matter which is granted first: the deposits, the lists of parachains and what is reserved on
/// each account in total come out the same.
pub proof fn order_of_leases_does_not_matter<AccountId>(
    s: ModuleView<AccountId>,
    para: ParaId,
    one: AccountId,
    one_amount: Balance,
    one_begin: LeasePeriod,
    one_count: LeasePeriod,
    other: AccountId,
    other_amount: Balance,
    other_begin: LeasePeriod,
    other_count: LeasePeriod,
    who: AccountId,
)
    requires
        0 < one_count,
        0 < other_count,
        s.lease_period_index() <= one_begin,
        s.lease_period_index() <= other_begin,
        one_begin + one_count <= LeasePeriod::MAX,
        other_begin + other_count <= LeasePeriod::MAX,
        one_begin + one_count <= other_begin || other_begin + other_count <= one_begin,
        forall|p: LeasePeriod|
            one_begin <= p < one_begin + one_count || other_begin <= p < other_begin + other_count
                ==> #[trigger] s.lease(para, p) is None,
    ensures
        ({
            let after_one = s.leased_out(para, one, one_amount, one_begin, one_count);
            let after_other = s.leased_out(para, other, other_amount, other_begin, other_count);
            let one_first = after_one.leased_out(
                para,
                other,
                other_amount,
                other_begin,
                other_count,
            );
            let other_first = after_other.leased_out(para, one, one_amount, one_begin, one_count);
            &&& one_first.deposits == other_first.deposits
            &&& one_first.leased == other_first.leased
            &&& reserved_of(s, para, one, one_amount, who) + reserved_of(
                after_one,
                para,
                other,
                other_amount,
                who,
            ) == reserved_of(s, para, other, other_amount, who) + reserved_of(
                after_other,
                para,
                one,
                one_amount,
                who,
            )
        }),
{
    let index = s.lease_period_index();
    let after_one = s.leased_out(para, one, one_amount, one_begin, one_count);
    let after_other = s.leased_out(para, other, other_amount, other_begin, other_count);
    let one_first = after_one.leased_out(para, other, other_amount, other_begin, other_count);
    let other_first = after_other.leased_out(para, one, one_amount, one_begin, one_count);
    let deposits = s.deposits_of(para);
    assert forall|i: int|
        one_begin <= i + index < one_begin + one_count || other_begin <= i + index < other_begin
            + other_count implies #[trigger] entry(deposits, i) is None by {
        assert(s.lease(para, (i + index) as LeasePeriod) is None);
    }
    assert(one_first.deposits_of(para) =~= other_first.deposits_of(para));
    assert(one_first.deposits =~= other_first.deposits);
    assert(one_first.leased =~= other_first.leased);
    assert(s.lease(para, one_begin) is None);
    assert(s.lease(para, other_begin) is None);
    if one == other {
        lease_holds_the_amount(s, para, one, one_amount, one_begin, one_count, one_begin);
        lease_holds_the_amount(s, para, other, other_amount, other_begin, other_count, other_begin);
    } else {
        lemma_lease_of_another(s, para, one, one_amount, one_begin, one_count, other);
        lemma_lease_of_another(s, para, other, other_amount, other_begin, other_count, one);
    }
}

/// What a list of requests has the host pay out in total.
pub open spec fn paid<AccountId>(requests: Seq<ActionView<AccountId>>) -> nat
    decreases requests.len(),
{
    if requests.len() == 0 {
        0
    } else {
        paid(requests.drop_last()) + match requests.last() {
            ActionView::DepositCreating { who, amount } => amount as nat,
            _ => 0,
        }
    }
}

/// What is locked in total on behalf of some paras.
pub open spec fn total_locked<AccountId>(s: ModuleView<AccountId>, ids: Seq<ParaId>) -> nat
    decreases ids.len(),
{
    if ids.len() == 0 {
        0
    } else {
        total_locked(s, ids.drop_last()) + locked(s.deposits_of(ids.last())) as nat
    }
}

proof fn lemma_paid_append<AccountId>(
    one: Seq<ActionView<AccountId>>,
    other: Seq<ActionView<AccountId>>,
)
    ensures
        paid(one + other) == paid(one) + paid(other),
    decreases other.len(),
{
    if other.len() == 0 {
        assert(one + other =~= one);
    } else {
        assert((one + other).drop_last() =~= one + other.drop_last());
        lemma_paid_append(one, other.drop_last());
    }
}

/// What is locked is the greater of what is held for the first lease period and what stays locked.
proof fn lemma_locked_first<AccountId>(deposits: Seq<Deposit<AccountId>>)
    requires
        deposits.len() > 0,
    ensures
        locked(deposits) == if amount_of(deposits.first()) >= locked(deposits.drop_first()) {
            amount_of(deposits.first())
        } else {
            locked(deposits.drop_first())
        },
{
    let all = amounts(deposits);
    let rest = amounts(deposits.drop_first());
    let bound = if amount_of(deposits.first()) >= greatest(rest) {
        amount_of(deposits.first())
    } else {
        greatest(rest)
    };
    lemma_greatest(rest);
    assert forall|i: int| 0 <= i < all.len() implies #[trigger] all[i] <= bound by {
        if i > 0 {
            assert(all[i] == rest[i - 1]);
        }
    }
    if bound == amount_of(deposits.first()) {
        assert(all[0] == bound);
    } else {
        let i = choose|i: int| 0 <= i < rest.len() && #[trigger] rest[i] == greatest(rest);
        assert(all[i + 1] == bound);
    }
    lemma_greatest_is(all, bound);
}

/// What is returned when a lease period ends is exactly what is locked no more.
pub proof fn refund_is_what_is_locked_no_more<AccountId>(deposits: Seq<Deposit<AccountId>>)
    requires
        deposits.len() > 0,
    ensures
        match refund(deposits) {
            Some(rebate) => locked(deposits) == locked(deposits.drop_first()) + rebate,
            None => locked(deposits) == locked(deposits.drop_first()),
        },
        deposits.len() == 1 ==> locked(deposits) == amount_of(deposits[0]),
{
    lemma_locked_first(deposits);
    if deposits.len() == 1 {
        assert(deposits.drop_first() =~= Seq::empty());
    }
}

/// What is returned until all lease periods in `deposits` have ended, if no lease is added.
pub open spec fn returned_in_all<AccountId>(deposits: Seq<Deposit<AccountId>>) -> nat
    decreases deposits.len(),
{
    if deposits.len() == 0 {
        0
    } else {
        let now = match refund(deposits) {
            Some(rebate) => rebate as nat,
            None => 0,
        };
        now + returned_in_all(deposits.drop_first())
    }
}

/// By the time its leases have run out, all that was locked for a para has been returned.
pub proof fn all_that_is_locked_is_returned<AccountId>(deposits: Seq<Deposit<AccountId>>)
    ensures
        returned_in_all(deposits) == locked(deposits),
    decreases deposits.len(),
{
    if deposits.len() > 0 {
        refund_is_what_is_locked_no_more(deposits);
        all_that_is_locked_is_returned(deposits.drop_first());
    }
}

/// The deposits of a para once it has been settled.
proof fn lemma_settled_deposits<AccountId: Account>(
    s: ModuleView<AccountId>,
    index: LeasePeriod,
    id: ParaId,
)
    ensures
        s.period_started(index).deposits_of(id) == if s.managed_ids.contains(id)
            && s.deposits_of(id).len() > 0 {
            s.deposits_of(id).drop_first()
        } else {
            s.deposits_of(id)
        },
{
    if s.managed_ids.contains(id) && s.is_ending(id) {
        assert(s.deposits_of(id).drop_first() =~= Seq::empty());
    }
}

proof fn lemma_settlements_pay<AccountId: Account>(
    s: ModuleView<AccountId>,
    index: LeasePeriod,
    ids: Seq<ParaId>,
)
    requires
        forall|i: int| 0 <= i < ids.len() ==> #[trigger] s.managed_ids.contains(ids[i]),
    ensures
        total_locked(s, ids) == total_locked(s.period_started(index), ids) + paid(
            s.settlements(ids),
        ),
    decreases ids.len(),
{
    if ids.len() > 0 {
        let id = ids.last();
        let deposits = s.deposits_of(id);
        assert(s.managed_ids.contains(ids[ids.len() - 1]));
        assert forall|i: int| 0 <= i < ids.drop_last().len() implies #[trigger] s.managed_ids.contains(
            ids.drop_last()[i],
        ) by {
            assert(s.managed_ids.contains(ids[i]));
        }
        lemma_settlements_pay(s, index, ids.drop_last());
        lemma_paid_append(s.settlements(ids.drop_last()), s.settlement(id));
        lemma_settled_deposits(s, index, id);
        if deposits.len() > 0 {
            refund_is_what_is_locked_no_more(deposits);
        }
        reveal_with_fuel(paid, 3);
        let requests = s.settlement(id);
        assert(requests.len() > 0 ==> requests.drop_last().len() == requests.len() - 1);
        if deposits.len() == 1 {
            assert(deposits.drop_first() =~= Seq::empty());
            if !s.onboarding.contains_key(id) {
                assert(requests.drop_last() =~= seq![ActionView::DeregisterPara { id }]);
            } else {
                assert(requests.drop_last() =~= Seq::empty());
            }
        }
    }
}

proof fn lemma_deployments_pay_nothing<AccountId: Account>(
    s: ModuleView<AccountId>,
    ids: Seq<ParaId>,
)
    ensures
        paid(s.deployments(ids)) == 0,
    decreases ids.len(),
{
    if ids.len() > 0 {
        lemma_deployments_pay_nothing(s, ids.drop_last());
        let earlier = s.deployments(ids.drop_last());
        assert(earlier.push(s.deployment(ids.last())).drop_last() =~= earlier);
    }
}

/// Nothing is lost and nothing is made up at the start of a lease period: what is paid out is
/// exactly the amount by which what is locked for the managed paras goes down.
pub proof fn period_start_returns_what_it_unlocks<AccountId: Account>(
    s: ModuleView<AccountId>,
    index: LeasePeriod,
)
    ensures
        paid(s.period_started(index).actions) + total_locked(
            s.period_started(index),
            s.managed_ids,
        ) == paid(s.actions) + total_locked(s, s.managed_ids),
{
    let event = ActionView::DepositEvent(Event::NewLeasePeriod(index));
    let announced = s.asked(event);
    let ids = s.managed_ids;
    let settled = ModuleView {
        managed_ids: ids.filter(|id: ParaId| s.is_continuing(id)),
        onboard_queue: s.onboard_queue.remove(index),
        ..announced.settled(ids)
    };
    let queue = list_at(s.onboard_queue, index);
    assert(announced.actions.drop_last() =~= s.actions);
    assert forall|i: int| 0 <= i < ids.len() implies #[trigger] s.managed_ids.contains(ids[i]) by {}
    lemma_settlements_pay(s, index, ids);
    lemma_settlements_of_announced(s, event, ids);
    lemma_paid_append(announced.actions, announced.settlements(ids));
    lemma_deployments_pay_nothing(settled, queue);
    lemma_paid_append(settled.actions, settled.deployments(queue));
}

/// What is asked for at a settlement does not depend on what was asked for before.
pub(crate) proof fn lemma_settlements_of_announced<AccountId: Account>(
    s: ModuleView<AccountId>,
    event: ActionView<AccountId>,
    ids: Seq<ParaId>,
)
    ensures
        s.asked(event).settlements(ids) == s.settlements(ids),
    decreases ids.len(),
{
    if ids.len() > 0 {
        lemma_settlements_of_announced(s, event, ids.drop_last());
        assert(s.asked(event).settlement(ids.last()) == s.settlement(ids.last()));
    }
}

/// The start of a lease period leaves the leases of the managed paras, in that period and in
/// every later one, as they were.
pub proof fn period_start_keeps_leases<AccountId: Account>(
    s: ModuleView<AccountId>,
    n: BlockNumber,
    id: ParaId,
    period: LeasePeriod,
)
    requires
        s.managed_ids.contains(id),
        s.lease_period_index() + 1 == n / s.lease_period,
        n / s.lease_period <= period,
    ensures
        ({
            let at_start = ModuleView { block_number: n, ..s };
            let index = (n / s.lease_period) as LeasePeriod;
            at_start.period_started(index).lease(id, period) == s.lease(id, period)
        }),
{
    let at_start = ModuleView { block_number: n, ..s };
    let index = (n / s.lease_period) as LeasePeriod;
    lemma_settled_deposits(at_start, index, id);
}

/// Every managed para has deposits.
pub open spec fn managed_paras_have_deposits<AccountId>(s: ModuleView<AccountId>) -> bool {
    forall|id: ParaId| #[trigger] s.managed_ids.contains(id) ==> s.deposits_of(id).len() > 0
}

/// Once a lease period has begun, every para that is managed has deposits, and was managed before;
/// and the queue of the paras that were due in the period is gone.
pub proof fn period_start_drops_paras_without_deposits<AccountId: Account>(
    s: ModuleView<AccountId>,
    index: LeasePeriod,
)
    requires
        s.well_formed(),
    ensures
        managed_paras_have_deposits(s.period_started(index)),
        forall|id: ParaId| #[trigger]
            s.period_started(index).managed_ids.contains(id) ==> s.managed_ids.contains(id),
        !s.period_started(index).onboard_queue.contains_key(index),
{
    let t = s.period_started(index);
    lemma_filter_ascending(s.managed_ids, |other: ParaId| s.is_continuing(other));
    assert forall|id: ParaId| #[trigger] t.managed_ids.contains(id) implies s.managed_ids.contains(id)
        && t.deposits_of(id).len() > 0 by {
        lemma_settled_deposits(s, index, id);
    }
}

/// A lease takes no deposit away from a managed para, and nor does setting deploy information.
pub proof fn leasing_keeps_deposits_of_managed_paras<AccountId>(
    s: ModuleView<AccountId>,
    para: ParaId,
    leaser: AccountId,
    amount: Balance,
    period_begin: LeasePeriod,
    period_count: LeasePeriod,
    code_hash: CodeHash,
    code_size: u32,
    initial_head_data: Seq<u8>,
    code: Seq<u8>,
)
    requires
        managed_paras_have_deposits(s),
    ensures
        managed_paras_have_deposits(
            s.leased_out(para, leaser, amount, period_begin, period_count),
        ),
        managed_paras_have_deposits(s.fixed(para, code_hash, code_size, initial_head_data)),
        managed_paras_have_deposits(s.elaborated(para, code)),
{
    let leased = s.leased_out(para, leaser, amount, period_begin, period_count);
    let fixed = s.fixed(para, code_hash, code_size, initial_head_data);
    let elaborated = s.elaborated(para, code);
    assert forall|id: ParaId| #[trigger] leased.managed_ids.contains(id) implies leased.deposits_of(
        id,
    ).len() > 0 by {
        assert(s.managed_ids.contains(id));
    }
    assert forall|id: ParaId| #[trigger] fixed.managed_ids.contains(id) implies fixed.deposits_of(
        id,
    ).len() > 0 by {
        assert(s.managed_ids.contains(id));
    }
    assert forall|id: ParaId| #[trigger]
        elaborated.managed_ids.contains(id) implies elaborated.deposits_of(id).len() > 0 by {
        assert(s.managed_ids.contains(id));
    }
}

/// A swap leaves every managed para with deposits.
pub proof fn swap_keeps_deposits_of_managed_paras<AccountId>(
    s: ModuleView<AccountId>,
    t: ModuleView<AccountId>,
    one: ParaId,
    other: ParaId,
)
    requires
        s.well_formed(),
        managed_paras_have_deposits(s),
        s.swapped(t, one, other),
    ensures
        managed_paras_have_deposits(t),
{
    assert forall|id: ParaId| #[trigger] t.managed_ids.contains(id) implies t.deposits_of(id).len()
        > 0 by {
        lemma_ascending(s.managed_ids);
        lemma_existence_swap_keeps_distinct(s.managed_ids, t.managed_ids, one, other);
        assert(s.managed_ids.contains(counterpart(id, one, other)));
        assert(t.deposits_of(id) == s.deposits_of(counterpart(id, one, other)));
    }
}

/// Taking a para that has deposits under management leaves every managed para with deposits.
pub proof fn registration_keeps_deposits_of_managed_paras<AccountId>(
    s: ModuleView<AccountId>,
    t: ModuleView<AccountId>,
    id: ParaId,
)
    requires
        managed_paras_have_deposits(s),
        s.deposits_of(id).len() > 0,
        s.registered(t, id),
    ensures
        managed_paras_have_deposits(t),
{
}

/// Taking a para under management leaves all leases, and what is held of anyone, as they were; to
/// do so a second time changes nothing.
pub proof fn registration_is_idempotent<AccountId>(
    s: ModuleView<AccountId>,
    t: ModuleView<AccountId>,
    u: ModuleView<AccountId>,
    id: ParaId,
    any_para: ParaId,
    period: LeasePeriod,
    anyone: AccountId,
)
    requires
        s.registered(t, id),
        t.registered(u, id),
    ensures
        t.lease(any_para, period) == s.lease(any_para, period),
        t.deposit_held(any_para, anyone) == s.deposit_held(any_para, anyone),
        u == t,
{
    let one = t.managed_ids;
    let other = u.managed_ids;
    lemma_ascending(one);
    lemma_ascending(other);
    one.lemma_multiset_has_no_duplicates();
    other.lemma_multiset_has_no_duplicates();
    assert forall|x: ParaId| one.to_multiset().count(x) == other.to_multiset().count(x) by {
        vstd::seq_lib::to_multiset_contains(one, x);
        vstd::seq_lib::to_multiset_contains(other, x);
        assert(one.contains(x) <==> other.contains(x));
    }
    assert(one.to_multiset() =~= other.to_multiset());
    lemma_ordered_unique(one, other);
    assert(u =~= t);
}

/// The state once `count` lease periods have begun, the first of them `index`.
pub open spec fn after_periods<AccountId: Account>(
    s: ModuleView<AccountId>,
    index: LeasePeriod,
    count: nat,
) -> ModuleView<AccountId>
    decreases count,
{
    if count == 0 {
        s
    } else {
        after_periods(s, index, (count - 1) as nat).period_started(
            (index + count - 1) as LeasePeriod,
        )
    }
}

/// A managed para stays managed for exactly as many lease periods as it has deposits for, if no
/// lease is added: each lease period that begins takes the first deposit away, the para goes with
/// the last one, and does not come back.
pub proof fn leases_run_out<AccountId: Account>(
    s: ModuleView<AccountId>,
    index: LeasePeriod,
    count: nat,
    id: ParaId,
)
    requires
        s.well_formed(),
        s.managed_ids.contains(id),
        0 < s.deposits_of(id).len(),
    ensures
        after_periods(s, index, count).deposits_of(id) == if count <= s.deposits_of(id).len() {
            s.deposits_of(id).skip(count as int)
        } else {
            Seq::empty()
        },
        after_periods(s, index, count).managed_ids.contains(id) <==> count < s.deposits_of(id).len(),
        after_periods(s, index, count).well_formed(),
    decreases count,
{
    let deposits = s.deposits_of(id);
    if count == 0 {
        assert(deposits.skip(0) =~= deposits);
    } else {
        let earlier = (count - 1) as nat;
        let at = (index + count - 1) as LeasePeriod;
        let t = after_periods(s, index, earlier);
        leases_run_out(s, index, earlier, id);
        lemma_settled_deposits(t, at, id);
        lemma_filter_ascending(t.managed_ids, |other: ParaId| t.is_continuing(other));
        if count <= deposits.len() {
            assert(deposits.skip(earlier as int).drop_first() =~= deposits.skip(count as int));
        } else if earlier == deposits.len() {
            assert(deposits.skip(earlier as int) =~= Seq::empty());
        }
    }
}

/// A swap exchanges the leases of two paras, the lease periods in which they should be parachains,
/// the deposits held for them and whether they are managed, and leaves all other paras alone. Nobody's code and head data change, and swapping stays
/// possible.
pub proof fn swap_exchanges_leases<AccountId>(
    s: ModuleView<AccountId>,
    t: ModuleView<AccountId>,
    one: ParaId,
    other: ParaId,
    id: ParaId,
    period: LeasePeriod,
    anyone: AccountId,
)
    requires
        s.well_formed(),
        s.swapped(t, one, other),
    ensures
        t.well_formed(),
        t.lease(id, period) == s.lease(counterpart(id, one, other), period),
        list_at(t.leased, period).contains(id) == list_at(s.leased, period).contains(
            counterpart(id, one, other),
        ),
        t.deposit_held(id, anyone) == s.deposit_held(counterpart(id, one, other), anyone),
        t.managed_ids.contains(id) == s.managed_ids.contains(counterpart(id, one, other)),
        t.onboarding == s.onboarding,
        t.actions == s.actions,
        t.both_deployed(one, other) == s.both_deployed(one, other),
{
    lemma_ascending(s.managed_ids);
    lemma_ascending(t.managed_ids);
    lemma_existence_swap_keeps_distinct(s.managed_ids, t.managed_ids, one, other);
    assert(t.deposits_of(id) == s.deposits_of(counterpart(id, one, other)));
    let before = list_at(s.leased, period);
    let after = list_at(t.leased, period);
    assert(after =~= renamed(before, one, other));
    if after.contains(id) {
        let i = choose|i: int| 0 <= i < after.len() && after[i] == id;
        assert(before[i] == counterpart(id, one, other));
    }
    if before.contains(counterpart(id, one, other)) {
        let i = choose|i: int| 0 <= i < before.len() && before[i] == counterpart(id, one, other);
        assert(after[i] == id);
    }
}

/// Swapping two paras twice changes nothing.
pub proof fn swap_is_its_own_inverse<AccountId>(
    s: ModuleView<AccountId>,
    t: ModuleView<AccountId>,
    u: ModuleView<AccountId>,
    one: ParaId,
    other: ParaId,
)
    requires
        s.well_formed(),
        s.swapped(t, one, other),
        t.swapped(u, one, other),
    ensures
        u == s,
{
    lemma_ascending(s.managed_ids);
    lemma_existence_swap_is_involution(
        s.managed_ids,
        t.managed_ids,
        u.managed_ids,
        one,
        other,
    );
    assert(u.deposits =~= s.deposits);
    assert(u.leased =~~= s.leased);
    assert(u.offboarding =~= s.offboarding);
    assert(u =~= s);
}

/// Deploy information can be fixed only once: after that, whoever tries, and with whatever data, is
/// told that the para is registered already.
pub proof fn deploy_data_is_fixed_once<AccountId>(
    s: ModuleView<AccountId>,
    para: ParaId,
    code_hash: CodeHash,
    code_size: u32,
    initial_head_data: Seq<u8>,
    who: AccountId,
    sub: SubId,
    head_data_allowed: bool,
    code_allowed: bool,
)
    ensures
        s.fixed(para, code_hash, code_size, initial_head_data).fix_outcome(
            Origin::Signed(who),
            sub,
            para,
            head_data_allowed,
            code_allowed,
        ) == Err::<(), DispatchError>(DispatchError::Module(Error::AlreadyRegistered)),
{
}

/// Code is taken only for a para whose deploy information was fixed and not yet elaborated: the
/// bidder's identity alone is not enough, and the code cannot be given a second time.
pub proof fn code_is_taken_once<AccountId>(
    s: ModuleView<AccountId>,
    para: ParaId,
    code: Seq<u8>,
    hash: Seq<u8>,
    any_code: Seq<u8>,
    any_hash: Seq<u8>,
)
    ensures
        s.onboarding.contains_key(para) && s.onboarding[para].1 is Unset ==> s.elaborate_outcome(
            para,
            code,
            hash,
        ) == Err::<(), DispatchError>(DispatchError::Module(Error::UnsetDeployData)),
        s.elaborate_outcome(para, code, hash) is Ok ==> s.elaborated(para, code).elaborate_outcome(
            para,
            any_code,
            any_hash,
        ) == Err::<(), DispatchError>(
            DispatchError::Module(
                if s.onboarding[para].0 > s.lease_period_index() {
                    Error::UnsetDeployData
                } else {
                    Error::ParaNotOnboarding
                },
            ),
        ),
{
}

/// What registers a para as a parachain.
pub open spec fn registration<AccountId>(
    id: ParaId,
    code: Seq<u8>,
    initial_head_data: Seq<u8>,
) -> ActionView<AccountId> {
    ActionView::RegisterPara { id, parachain: true, code, initial_head_data }
}

/// The code that matches what was fixed is accepted. If the para's first lease period has begun,
/// the para is registered at once, with that code and with the head data that was fixed, and is no
/// longer on-boarding.
pub proof fn late_deployment_is_immediate<AccountId>(
    s: ModuleView<AccountId>,
    para: ParaId,
    code_hash: CodeHash,
    initial_head_data: Seq<u8>,
    code: Seq<u8>,
)
    requires
        s.onboarding.contains_key(para),
        s.onboarding[para].0 <= s.lease_period_index(),
    ensures
        ({
            let fixed = s.fixed(para, code_hash, code.len() as u32, initial_head_data);
            let t = fixed.elaborated(para, code);
            &&& fixed.elaborate_outcome(para, code, code_hash@) is Ok
            &&& t.actions == s.actions.push(registration(para, code, initial_head_data))
            &&& !t.onboarding.contains_key(para)
        }),
{
}

/// Each of the paras that are due, and deployable, is registered.
pub(crate) proof fn lemma_deployments_register<AccountId: Account>(
    s: ModuleView<AccountId>,
    ids: Seq<ParaId>,
    id: ParaId,
)
    requires
        ids.contains(id),
        s.is_deployable(id),
    ensures
        s.deployments(ids).contains(s.deployment(id)),
    decreases ids.len(),
{
    let rest = ids.drop_last();
    let last = ids.last();
    if rest.contains(id) {
        lemma_deployments_register(s, rest, id);
        let earlier = s.deployments(rest);
        let i = choose|i: int| 0 <= i < earlier.len() && earlier[i] == s.deployment(id);
        assert(s.deployments(ids)[i] == s.deployment(id));
    } else {
        let i = choose|i: int| 0 <= i < ids.len() && ids[i] == id;
        if i < rest.len() {
            assert(rest[i] == id);
        }
        assert(last == id);
        assert(s.deployments(ids)[s.deployments(rest).len() as int] == s.deployment(id));
    }
}

/// `request` is one to register the para `id`.
pub open spec fn registers<AccountId>(request: ActionView<AccountId>, id: ParaId) -> bool {
    request matches ActionView::RegisterPara { id: registered, .. } && registered == id
}

/// None of the requests is one to register the para `id`.
pub open spec fn none_registers<AccountId>(
    requests: Seq<ActionView<AccountId>>,
    id: ParaId,
) -> bool {
    forall|i: int| 0 <= i < requests.len() ==> !registers(#[trigger] requests[i], id)
}

proof fn lemma_none_registers_append<AccountId>(
    one: Seq<ActionView<AccountId>>,
    other: Seq<ActionView<AccountId>>,
    id: ParaId,
)
    requires
        none_registers(one, id),
        none_registers(other, id),
    ensures
        none_registers(one + other, id),
{
}

/// No para is registered at a settlement.
proof fn lemma_settlements_register_nothing<AccountId: Account>(
    s: ModuleView<AccountId>,
    ids: Seq<ParaId>,
    id: ParaId,
)
    ensures
        none_registers(s.settlements(ids), id),
    decreases ids.len(),
{
    if ids.len() > 0 {
        lemma_settlements_register_nothing(s, ids.drop_last(), id);
        lemma_none_registers_append(s.settlements(ids.drop_last()), s.settlement(ids.last()), id);
    }
}

/// Only paras that are due are registered.
proof fn lemma_deployments_register_no_other<AccountId: Account>(
    s: ModuleView<AccountId>,
    ids: Seq<ParaId>,
    id: ParaId,
)
    requires
        !ids.contains(id),
    ensures
        none_registers(s.deployments(ids), id),
    decreases ids.len(),
{
    if ids.len() > 0 {
        let rest = ids.drop_last();
        assert(ids[ids.len() - 1] != id);
        assert forall|i: int| 0 <= i < rest.len() implies rest[i] != id by {
            assert(ids[i] != id);
        }
        lemma_deployments_register_no_other(s, rest, id);
    }
}

/// The state at the start of the lease period `index`, before any para is commissioned.
pub(crate) open spec fn before_commissioning<AccountId: Account>(
    s: ModuleView<AccountId>,
    index: LeasePeriod,
) -> ModuleView<AccountId> {
    ModuleView {
        managed_ids: s.managed_ids.filter(|id: ParaId| s.is_continuing(id)),
        onboard_queue: s.onboard_queue.remove(index),
        ..s.asked(ActionView::DepositEvent(Event::NewLeasePeriod(index))).settled(s.managed_ids)
    }
}

/// A para that is not off-boarded keeps its deployment information until it is due, and is not
/// registered before.
proof fn lemma_period_start_of_others<AccountId: Account>(
    s: ModuleView<AccountId>,
    index: LeasePeriod,
    para: ParaId,
)
    requires
        !(s.managed_ids.contains(para) && s.is_ending(para)),
        !list_at(s.onboard_queue, index).contains(para),
        s.onboarding.contains_key(para),
    ensures
        ({
            let t = s.period_started(index);
            &&& t.onboarding.contains_key(para)
            &&& t.onboarding[para] == s.onboarding[para]
            &&& t.onboard_queue == s.onboard_queue.remove(index)
            &&& s.actions.len() <= t.actions.len()
            &&& t.actions.take(s.actions.len() as int) == s.actions
            &&& none_registers(t.actions.skip(s.actions.len() as int), para)
        }),
{
    let event = ActionView::DepositEvent(Event::NewLeasePeriod(index));
    let announced = s.asked(event);
    let settled = before_commissioning(s, index);
    let queue = list_at(s.onboard_queue, index);
    let t = s.period_started(index);
    assert(announced.deposits_of(para) == s.deposits_of(para));
    lemma_settlements_register_nothing(announced, s.managed_ids, para);
    lemma_deployments_register_no_other(settled, queue, para);
    let added = seq![event] + announced.settlements(s.managed_ids) + settled.deployments(queue);
    lemma_none_registers_append(seq![event], announced.settlements(s.managed_ids), para);
    lemma_none_registers_append(
        seq![event] + announced.settlements(s.managed_ids),
        settled.deployments(queue),
        para,
    );
    assert(t.actions =~= s.actions + added);
    assert(t.actions.take(s.actions.len() as int) =~= s.actions);
    assert(t.actions.skip(s.actions.len() as int) =~= added);
}

/// A para that is due, deployable and not off-boarded is registered when the lease period begins.
proof fn lemma_period_start_registers<AccountId: Account>(
    s: ModuleView<AccountId>,
    index: LeasePeriod,
    para: ParaId,
)
    requires
        !(s.managed_ids.contains(para) && s.is_ending(para)),
        list_at(s.onboard_queue, index).contains(para),
        s.is_deployable(para),
    ensures
        s.period_started(index).actions.skip(s.actions.len() as int).contains(s.deployment(para)),
        !s.period_started(index).onboarding.contains_key(para),
{
    let event = ActionView::DepositEvent(Event::NewLeasePeriod(index));
    let announced = s.asked(event);
    let settled = before_commissioning(s, index);
    let queue = list_at(s.onboard_queue, index);
    let t = s.period_started(index);
    assert(announced.deposits_of(para) == s.deposits_of(para));
    assert(settled.is_deployable(para));
    lemma_deployments_register(settled, queue, para);
    let requests = settled.deployments(queue);
    let i = choose|i: int| 0 <= i < requests.len() && requests[i] == settled.deployment(para);
    assert(t.actions == settled.actions + requests);
    assert(settled.actions.len() >= s.actions.len());
    let added = t.actions.skip(s.actions.len() as int);
    assert(added[settled.actions.len() - s.actions.len() + i] == s.deployment(para));
}

/// A para whose deployment information is fully set keeps it until the lease period in which it is
/// due, if it is not off-boarded before.
proof fn lemma_waits<AccountId: Account>(
    s: ModuleView<AccountId>,
    index: LeasePeriod,
    count: nat,
    due: LeasePeriod,
    para: ParaId,
)
    requires
        s.well_formed(),
        s.onboarding.contains_key(para),
        index + count <= due,
        list_at(s.onboard_queue, due).contains(para),
        forall|p: LeasePeriod|
            index <= p < due ==> !(#[trigger] list_at(s.onboard_queue, p)).contains(para),
        s.managed_ids.contains(para) ==> s.deposits_of(para).len() == 0 || s.deposits_of(para).len()
            > count,
    ensures
        ({
            let t = after_periods(s, index, count);
            &&& t.well_formed()
            &&& t.onboarding.contains_key(para)
            &&& t.onboarding[para] == s.onboarding[para]
            &&& forall|p: LeasePeriod|
                index + count <= p ==> #[trigger] list_at(t.onboard_queue, p) == list_at(
                    s.onboard_queue,
                    p,
                )
            &&& s.actions.len() <= t.actions.len()
            &&& none_registers(t.actions.skip(s.actions.len() as int), para)
            &&& t.managed_ids.contains(para) ==> s.managed_ids.contains(para)
            &&& t.managed_ids.contains(para) && s.deposits_of(para).len() > 0 ==> t.deposits_of(
                para,
            ).len() == s.deposits_of(para).len() - count
            &&& s.deposits_of(para).len() == 0 ==> t.deposits_of(para).len() == 0
        }),
    decreases count,
{
    if count > 0 {
        let earlier = (count - 1) as nat;
        let at = (index + count - 1) as LeasePeriod;
        let before = after_periods(s, index, earlier);
        let t = after_periods(s, index, count);
        lemma_waits(s, index, earlier, due, para);
        assert(!list_at(s.onboard_queue, at).contains(para));
        assert(list_at(before.onboard_queue, at) == list_at(s.onboard_queue, at));
        lemma_period_start_of_others(before, at, para);
        lemma_settled_deposits(before, at, para);
        lemma_filter_ascending(before.managed_ids, |other: ParaId| before.is_continuing(other));
        assert forall|p: LeasePeriod| index + count <= p implies #[trigger] list_at(
            t.onboard_queue,
            p,
        ) == list_at(s.onboard_queue, p) by {
            assert(list_at(before.onboard_queue, p) == list_at(s.onboard_queue, p));
        }
        let earlier_actions = before.actions.skip(s.actions.len() as int);
        let later_actions = t.actions.skip(before.actions.len() as int);
        lemma_none_registers_append(earlier_actions, later_actions, para);
        assert forall|i: int| 0 <= i < before.actions.len() implies t.actions[i]
            == #[trigger] before.actions[i] by {
            assert(t.actions.take(before.actions.len() as int)[i] == t.actions[i]);
        }
        assert(t.actions.skip(s.actions.len() as int) =~= earlier_actions + later_actions);
    }
}

/// The code that matches what was fixed is accepted. If the para's first lease period has not yet
/// begun, then the para, if it is queued for that period and for none before it, and is not
/// off-boarded before, keeps its deployment information until that period begins and is not
/// registered before; and when the period begins, it is registered, with that code and with the
/// head data that was fixed, and is no longer on-boarding.
pub proof fn timely_deployment_waits_for_the_lease<AccountId: Account>(
    s: ModuleView<AccountId>,
    para: ParaId,
    code_hash: CodeHash,
    initial_head_data: Seq<u8>,
    code: Seq<u8>,
    count: nat,
    waited: nat,
)
    requires
        s.well_formed(),
        s.onboarding.contains_key(para),
        s.onboarding[para].0 == s.lease_period_index() + count,
        waited < count,
        list_at(s.onboard_queue, s.onboarding[para].0).contains(para),
        forall|p: LeasePeriod|
            s.lease_period_index() < p < s.onboarding[para].0 ==> !(#[trigger] list_at(
                s.onboard_queue,
                p,
            )).contains(para),
        s.managed_ids.contains(para) ==> s.deposits_of(para).len() == 0 || s.deposits_of(para).len()
            > count,
    ensures
        ({
            let next = (s.lease_period_index() + 1) as LeasePeriod;
            let fixed = s.fixed(para, code_hash, code.len() as u32, initial_head_data);
            let elaborated = fixed.elaborated(para, code);
            let waiting = after_periods(elaborated, next, waited);
            let last = after_periods(elaborated, next, (count - 1) as nat);
            let t = after_periods(elaborated, next, count);
            &&& fixed.elaborate_outcome(para, code, code_hash@) is Ok
            &&& elaborated.actions == s.actions
            &&& waiting.is_deployable(para)
            &&& waiting.deployment(para) == registration::<AccountId>(para, code, initial_head_data)
            &&& none_registers(waiting.actions.skip(s.actions.len() as int), para)
            &&& t.actions.skip(last.actions.len() as int).contains(
                registration(para, code, initial_head_data),
            )
            &&& !t.onboarding.contains_key(para)
        }),
{
    let starts = s.onboarding[para].0;
    let next = (s.lease_period_index() + 1) as LeasePeriod;
    let fixed = s.fixed(para, code_hash, code.len() as u32, initial_head_data);
    let elaborated = fixed.elaborated(para, code);
    let last = after_periods(elaborated, next, (count - 1) as nat);
    assert(elaborated.deposits_of(para) == s.deposits_of(para));
    assert forall|p: LeasePeriod| next <= p < starts implies !(#[trigger] list_at(
        elaborated.onboard_queue,
        p,
    )).contains(para) by {
        assert(!list_at(s.onboard_queue, p).contains(para));
    }
    lemma_waits(elaborated, next, waited, starts, para);
    lemma_waits(elaborated, next, (count - 1) as nat, starts, para);
    assert(list_at(last.onboard_queue, starts) == list_at(s.onboard_queue, starts));
    lemma_period_start_registers(last, starts, para);
}

/// A para that was never commissioned is not deregistered when its leases have run out, and one
/// that was is; either way all that is still held for it goes to the off-boarding account, and it
/// is forgotten.
pub proof fn offboarding_forgets_the_para<AccountId: Account>(
    s: ModuleView<AccountId>,
    index: LeasePeriod,
    id: ParaId,
)
    requires
        s.well_formed(),
        s.managed_ids.contains(id),
        s.is_ending(id),
    ensures
        ({
            let t = s.period_started(index);
            let returned = ActionView::DepositCreating {
                who: s.offboarding_account(id),
                amount: locked(s.deposits_of(id)),
            };
            &&& t.actions.contains(returned)
            &&& !s.onboarding.contains_key(id) ==> t.actions.contains(
                ActionView::DeregisterPara { id },
            )
            &&& s.onboarding.contains_key(id) ==> !s.settlements(s.managed_ids).contains(
                ActionView::DeregisterPara { id },
            )
            &&& !t.managed_ids.contains(id)
            &&& !t.deposits.contains_key(id)
            &&& !t.onboarding.contains_key(id)
            &&& !t.offboarding.contains_key(id)
        }),
{
    let event = ActionView::DepositEvent(Event::NewLeasePeriod(index));
    let announced = s.asked(event);
    let ids = s.managed_ids;
    let settled = ModuleView {
        managed_ids: ids.filter(|other: ParaId| s.is_continuing(other)),
        onboard_queue: s.onboard_queue.remove(index),
        ..announced.settled(ids)
    };
    let queue = list_at(s.onboard_queue, index);
    let t = s.period_started(index);
    lemma_settlements_of_announced(s, event, ids);
    refund_is_what_is_locked_no_more(s.deposits_of(id));
    lemma_filter_ascending(ids, |other: ParaId| s.is_continuing(other));
    assert(t.actions == announced.actions + s.settlements(ids) + settled.deployments(queue));
    let own = s.settlement(id);
    assert forall|request: ActionView<AccountId>| own.contains(request) implies #[trigger] t.actions.contains(
        request,
    ) by {
        lemma_settlements_contain(s, ids, id, request);
        let i = choose|i: int|
            0 <= i < s.settlements(ids).len() && s.settlements(ids)[i] == request;
        assert(t.actions[announced.actions.len() + i] == request);
    }
    let returned = ActionView::DepositCreating {
        who: s.offboarding_account(id),
        amount: locked(s.deposits_of(id)),
    };
    assert(own[own.len() - 1] == returned);
    assert(own.contains(returned));
    if !s.onboarding.contains_key(id) {
        assert(own[0] == ActionView::<AccountId>::DeregisterPara { id });
        assert(own.contains(ActionView::DeregisterPara { id }));
    } else {
        lemma_no_deregistration(s, ids, id);
    }
}

/// What is asked for at the settlement of one para is among what is asked for at all of them.
pub(crate) proof fn lemma_settlements_contain<AccountId: Account>(
    s: ModuleView<AccountId>,
    ids: Seq<ParaId>,
    id: ParaId,
    request: ActionView<AccountId>,
)
    requires
        ids.contains(id),
        s.settlement(id).contains(request),
    ensures
        s.settlements(ids).contains(request),
    decreases ids.len(),
{
    let rest = ids.drop_last();
    let earlier = s.settlements(rest);
    let all = s.settlements(ids);
    if rest.contains(id) {
        lemma_settlements_contain(s, rest, id, request);
        let i = choose|i: int| 0 <= i < earlier.len() && earlier[i] == request;
        assert(all[i] == request);
    } else {
        let k = choose|k: int| 0 <= k < ids.len() && ids[k] == id;
        if k < rest.len() {
            assert(rest[k] == id);
        }
        let own = s.settlement(id);
        let i = choose|i: int| 0 <= i < own.len() && own[i] == request;
        assert(all[earlier.len() + i] == request);
    }
}

/// A para that is still on-boarding is not deregistered at a settlement.
proof fn lemma_no_deregistration<AccountId: Account>(
    s: ModuleView<AccountId>,
    ids: Seq<ParaId>,
    id: ParaId,
)
    requires
        s.onboarding.contains_key(id),
    ensures
        !s.settlements(ids).contains(ActionView::DeregisterPara { id }),
    decreases ids.len(),
{
    if ids.len() > 0 {
        lemma_no_deregistration(s, ids.drop_last(), id);
        let earlier = s.settlements(ids.drop_last());
        let own = s.settlement(ids.last());
        let request = ActionView::<AccountId>::DeregisterPara { id };
        assert(!own.contains(request));
        assert forall|i: int| 0 <= i < (earlier + own).len() implies (earlier + own)[i]
            != request by {
            if i < earlier.len() {
                assert(earlier.contains(earlier[i]));
            } else {
                assert(own.contains(own[i - earlier.len()]));
            }
        }
    }
}

} // verus!
