//! What the start of a lease period does, field by field and request by request.

use crate::account::Account;
use crate::bidder::IncomingView;
use crate::deposits::Deposit;
use crate::dispatch::{ActionView, Event};
use crate::hashing::CodeHash;
use crate::laws::deposits::{are_deposits_of, is_locked_from, refund_is_the_difference};
use crate::laws::{
    before_commissioning, lemma_deployments_register, lemma_settlements_contain,
    lemma_settlements_of_announced,
};
use crate::lease_periods::lemma_filter_ascending;
use crate::primitives::{Balance, LeasePeriod, ParaId};
use crate::state::{list_at, ModuleView};
use vstd::prelude::*;

verus! {

/// The requests that the start of the lease period `index` adds, after its announcement.
pub open spec fn requests_at_start<AccountId: Account>(
    s: ModuleView<AccountId>,
    index: LeasePeriod,
) -> Seq<ActionView<AccountId>> {
    s.period_started(index).actions.skip(s.actions.len() as int + 1)
}

/// The requests of a period start, put together from its parts.
proof fn lemma_requests<AccountId: Account>(s: ModuleView<AccountId>, index: LeasePeriod)
    ensures
        s.period_started(index).actions == s.actions.push(
            ActionView::DepositEvent(Event::NewLeasePeriod(index)),
        ) + s.settlements(s.managed_ids) + before_commissioning(s, index).deployments(
            list_at(s.onboard_queue, index),
        ),
        requests_at_start(s, index) == s.settlements(s.managed_ids) + before_commissioning(
            s,
            index,
        ).deployments(list_at(s.onboard_queue, index)),
{
    let event = ActionView::DepositEvent(Event::NewLeasePeriod(index));
    lemma_settlements_of_announced(s, event, s.managed_ids);
    let added = s.settlements(s.managed_ids) + before_commissioning(s, index).deployments(
        list_at(s.onboard_queue, index),
    );
    assert(s.period_started(index).actions =~= s.actions.push(event) + added);
    assert(requests_at_start(s, index) =~= added);
}

/// What is asked for at a settlement depends on deposits, on-boarding and off-boarding entries alone.
proof fn lemma_settlements_agree<AccountId: Account>(
    s: ModuleView<AccountId>,
    t: ModuleView<AccountId>,
    ids: Seq<ParaId>,
)
    requires
        s.deposits == t.deposits,
        s.onboarding == t.onboarding,
        s.offboarding == t.offboarding,
    ensures
        s.settlements(ids) == t.settlements(ids),
    decreases ids.len(),
{
    if ids.len() > 0 {
        lemma_settlements_agree(s, t, ids.drop_last());
        assert(s.settlement(ids.last()) == t.settlement(ids.last()));
    }
}

/// What is asked for when paras are commissioned depends on the on-boarding entries alone.
proof fn lemma_deployments_agree<AccountId: Account>(
    s: ModuleView<AccountId>,
    t: ModuleView<AccountId>,
    ids: Seq<ParaId>,
)
    requires
        s.onboarding == t.onboarding,
    ensures
        s.deployments(ids) == t.deployments(ids),
    decreases ids.len(),
{
    if ids.len() > 0 {
        lemma_deployments_agree(s, t, ids.drop_last());
    }
}

proof fn lemma_settlements_append<AccountId: Account>(
    s: ModuleView<AccountId>,
    one: Seq<ParaId>,
    other: Seq<ParaId>,
)
    ensures
        s.settlements(one + other) == s.settlements(one) + s.settlements(other),
    decreases other.len(),
{
    if other.len() == 0 {
        assert(one + other =~= one);
        assert(s.settlements(one) + s.settlements(other) =~= s.settlements(one));
    } else {
        assert((one + other).drop_last() =~= one + other.drop_last());
        lemma_settlements_append(s, one, other.drop_last());
        assert(s.settlements(one + other) =~= s.settlements(one) + s.settlements(other));
    }
}

/// The start of a lease period is announced before anything else is asked for, and what was asked
/// for before still is. Nothing is changed but deposits, managed IDs, on-boarding and off-boarding
/// entries, and the queue of the period, which is gone.
pub proof fn period_start_is_announced_first<AccountId: Account>(
    s: ModuleView<AccountId>,
    index: LeasePeriod,
    other: LeasePeriod,
)
    requires
        other != index,
    ensures
        ({
            let t = s.period_started(index);
            &&& t.actions.len() > s.actions.len()
            &&& t.actions.take(s.actions.len() as int) == s.actions
            &&& t.actions[s.actions.len() as int] == ActionView::<AccountId>::DepositEvent(
                Event::NewLeasePeriod(index),
            )
            &&& t.lease_period == s.lease_period
            &&& t.block_number == s.block_number
            &&& t.leased == s.leased
            &&& !t.onboard_queue.contains_key(index)
            &&& t.onboard_queue.contains_key(other) == s.onboard_queue.contains_key(other)
            &&& s.onboard_queue.contains_key(other) ==> t.onboard_queue[other]
                == s.onboard_queue[other]
        }),
{
    lemma_requests(s, index);
    let t = s.period_started(index);
    assert(t.actions.take(s.actions.len() as int) =~= s.actions);
}

/// What the start of a lease period makes of one para. If it is managed and has just one deposit, it
/// is forgotten; if it has more, the first of them goes and it stays managed; if it has none, or is
/// not managed, its deposits and its off-boarding account stay as they are and it is not managed.
/// Its on-boarding entry goes only with the last deposit, or if it is fully set and due.
pub proof fn what_becomes_of_a_para<AccountId: Account>(
    s: ModuleView<AccountId>,
    index: LeasePeriod,
    id: ParaId,
    deposits: Seq<Deposit<AccountId>>,
    i: int,
)
    requires
        s.well_formed(),
        are_deposits_of(s.deposits, id, deposits),
    ensures
        ({
            let t = s.period_started(index);
            let managed = s.managed_ids.contains(id);
            let due = s.onboard_queue.contains_key(index) && s.onboard_queue[index].contains(id);
            let ends = managed && deposits.len() == 1;
            &&& t.managed_ids.contains(id) <==> managed && deposits.len() > 1
            &&& ends ==> !t.deposits.contains_key(id) && !t.offboarding.contains_key(id)
            &&& managed && deposits.len() > 1 ==> {
                &&& t.deposits.contains_key(id)
                &&& t.deposits[id].len() == deposits.len() - 1
                &&& 0 <= i < deposits.len() - 1 ==> t.deposits[id][i] == deposits[i + 1]
            }
            &&& !managed || deposits.len() == 0 ==> {
                &&& t.deposits.contains_key(id) == s.deposits.contains_key(id)
                &&& s.deposits.contains_key(id) ==> t.deposits[id] == s.deposits[id]
            }
            &&& !ends ==> {
                &&& t.offboarding.contains_key(id) == s.offboarding.contains_key(id)
                &&& s.offboarding.contains_key(id) ==> t.offboarding[id] == s.offboarding[id]
            }
            &&& t.onboarding.contains_key(id) <==> s.onboarding.contains_key(id) && !ends && !(due
                && s.onboarding[id].1 is Deploy)
            &&& t.onboarding.contains_key(id) ==> t.onboarding[id] == s.onboarding[id]
            &&& forall|j: int, k: int|
                0 <= j < k < t.managed_ids.len() ==> t.managed_ids[j] < t.managed_ids[k]
        }),
{
    assert(s.deposits_of(id) =~= deposits);
    lemma_filter_ascending(s.managed_ids, |other: ParaId| s.is_continuing(other));
}

/// When the last lease period of a managed para ends, the one deposit that is left goes to the
/// account that is set for its off-boarding, whether or not the para was ever deployed; only where
/// no account is set does it go to the account that stands for none.
pub proof fn last_deposit_goes_to_the_offboarding_account<AccountId: Account>(
    s: ModuleView<AccountId>,
    index: LeasePeriod,
    id: ParaId,
    amount: Balance,
)
    requires
        s.managed_ids.contains(id),
        s.deposits.contains_key(id),
        s.deposits[id].len() == 1,
        match s.deposits[id][0] {
            Some(deposit) => amount == deposit.1,
            None => amount == 0,
        },
    ensures
        s.offboarding.contains_key(id) ==> requests_at_start(s, index).contains(
            ActionView::DepositCreating { who: s.offboarding[id], amount },
        ),
        !s.offboarding.contains_key(id) ==> requests_at_start(s, index).contains(
            ActionView::DepositCreating { who: AccountId::spec_unset(), amount },
        ),
{
    lemma_requests(s, index);
    let who = if s.offboarding.contains_key(id) {
        s.offboarding[id]
    } else {
        AccountId::spec_unset()
    };
    let request = ActionView::DepositCreating { who, amount };
    let own = s.settlement(id);
    assert(own[own.len() - 1] == request);
    assert(own.contains(request));
    lemma_settlements_contain(s, s.managed_ids, id, request);
    lemma_contains_append(
        s.settlements(s.managed_ids),
        before_commissioning(s, index).deployments(list_at(s.onboard_queue, index)),
        request,
    );
}

/// When a lease period of a managed para ends that is not its last, the para's own account gets what
/// was deposited for it beyond the greatest of the deposits that follow, if there is no greater one
/// among those.
pub proof fn rebate_goes_to_the_para<AccountId: Account>(
    s: ModuleView<AccountId>,
    index: LeasePeriod,
    id: ParaId,
    outgoing: Balance,
    stays: Balance,
    rebate: Balance,
)
    requires
        s.managed_ids.contains(id),
        s.deposits.contains_key(id),
        s.deposits[id].len() > 1,
        match s.deposits[id][0] {
            Some(deposit) => outgoing == deposit.1,
            None => outgoing == 0,
        },
        is_locked_from(s.deposits[id], 1, stays),
        outgoing == stays + rebate,
    ensures
        requests_at_start(s, index).contains(
            ActionView::DepositCreating { who: AccountId::spec_of_para(id), amount: rebate },
        ),
{
    lemma_requests(s, index);
    refund_is_the_difference(s.deposits[id], outgoing, stays);
    let request = ActionView::DepositCreating { who: AccountId::spec_of_para(id), amount: rebate };
    assert(s.settlement(id)[0] == request);
    assert(s.settlement(id).contains(request));
    lemma_settlements_contain(s, s.managed_ids, id, request);
    lemma_contains_append(
        s.settlements(s.managed_ids),
        before_commissioning(s, index).deployments(list_at(s.onboard_queue, index)),
        request,
    );
}

proof fn lemma_contains_append<T>(one: Seq<T>, other: Seq<T>, x: T)
    ensures
        (one + other).contains(x) <==> one.contains(x) || other.contains(x),
{
    if one.contains(x) {
        let i = choose|i: int| 0 <= i < one.len() && one[i] == x;
        assert((one + other)[i] == x);
    }
    if other.contains(x) {
        let i = choose|i: int| 0 <= i < other.len() && other[i] == x;
        assert((one + other)[one.len() + i] == x);
    }
    if (one + other).contains(x) {
        let i = choose|i: int| 0 <= i < (one + other).len() && (one + other)[i] == x;
        if i < one.len() {
            assert(one[i] == x);
        } else {
            assert(other[i - one.len()] == x);
        }
    }
}

/// Just those paras are deregistered at a settlement that have one deposit and are not on-boarding.
proof fn lemma_settlements_deregister<AccountId: Account>(
    s: ModuleView<AccountId>,
    ids: Seq<ParaId>,
    id: ParaId,
)
    ensures
        s.settlements(ids).contains(ActionView::DeregisterPara { id }) <==> ids.contains(id)
            && s.deposits_of(id).len() == 1 && !s.onboarding.contains_key(id),
    decreases ids.len(),
{
    let request = ActionView::<AccountId>::DeregisterPara { id };
    if ids.len() > 0 {
        let rest = ids.drop_last();
        let last = ids.last();
        let own = s.settlement(last);
        lemma_settlements_deregister(s, rest, id);
        lemma_contains_append(s.settlements(rest), own, request);
        assert(rest.push(last) =~= ids);
        assert(ids.contains(id) <==> rest.contains(id) || id == last) by {
            lemma_contains_append(rest, seq![last], id);
            assert(rest + seq![last] =~= ids);
            assert(seq![last].contains(id) <==> id == last) by {
                assert(seq![last][0] == last);
            }
        }
        if own.contains(request) {
            let i = choose|i: int| 0 <= i < own.len() && own[i] == request;
            assert(last == id);
        }
        if id == last && s.deposits_of(id).len() == 1 && !s.onboarding.contains_key(id) {
            assert(own[0] == request);
        }
    }
}

/// What is asked for when paras are commissioned is to register each of them that is deployable,
/// with its own code and head data, and nothing else.
proof fn lemma_deployments_only_register<AccountId: Account>(
    s: ModuleView<AccountId>,
    ids: Seq<ParaId>,
    i: int,
)
    requires
        0 <= i < s.deployments(ids).len(),
    ensures
        s.deployments(ids)[i] is RegisterPara,
        ids.contains(s.deployments(ids)[i]->RegisterPara_id),
        s.is_deployable(s.deployments(ids)[i]->RegisterPara_id),
        s.deployments(ids)[i] == s.deployment(s.deployments(ids)[i]->RegisterPara_id),
    decreases ids.len(),
{
    let rest = ids.drop_last();
    let earlier = s.deployments(rest);
    if i < earlier.len() {
        lemma_deployments_only_register(s, rest, i);
        let id = earlier[i]->RegisterPara_id;
        let k = choose|k: int| 0 <= k < rest.len() && rest[k] == id;
        assert(ids[k] == id);
    } else {
        assert(ids[ids.len() - 1] == ids.last());
    }
}

/// Paras are deregistered and paid at a settlement, and nothing else is asked for.
proof fn lemma_settlements_do_not_register<AccountId: Account>(
    s: ModuleView<AccountId>,
    ids: Seq<ParaId>,
    i: int,
)
    requires
        0 <= i < s.settlements(ids).len(),
    ensures
        s.settlements(ids)[i] is DeregisterPara || s.settlements(ids)[i] is DepositCreating,
    decreases ids.len(),
{
    let earlier = s.settlements(ids.drop_last());
    if i < earlier.len() {
        lemma_settlements_do_not_register(s, ids.drop_last(), i);
    }
}

/// At the start of a lease period exactly those paras are deregistered that are managed, have just
/// one deposit and are not on-boarding, and exactly those are registered that are due, have code and
/// head data, and do not end: with that code and that head data, as parachains.
pub proof fn who_is_registered_and_deregistered<AccountId: Account>(
    s: ModuleView<AccountId>,
    index: LeasePeriod,
    id: ParaId,
    deposits: Seq<Deposit<AccountId>>,
    parachain: bool,
    code: Seq<u8>,
    initial_head_data: Seq<u8>,
)
    requires
        are_deposits_of(s.deposits, id, deposits),
    ensures
        requests_at_start(s, index).contains(ActionView::DeregisterPara { id }) <==> {
            &&& s.managed_ids.contains(id)
            &&& deposits.len() == 1
            &&& !s.onboarding.contains_key(id)
        },
        requests_at_start(s, index).contains(
            ActionView::RegisterPara { id, parachain, code, initial_head_data },
        ) <==> {
            &&& parachain
            &&& s.onboard_queue.contains_key(index)
            &&& s.onboard_queue[index].contains(id)
            &&& s.onboarding.contains_key(id)
            &&& s.onboarding[id].1 == (IncomingView::<AccountId, CodeHash>::Deploy {
                code,
                initial_head_data,
            })
            &&& !(s.managed_ids.contains(id) && deposits.len() == 1)
        },
{
    assert(s.deposits_of(id) =~= deposits);
    lemma_requests(s, index);
    let ids = s.managed_ids;
    let settled = before_commissioning(s, index);
    let queue = list_at(s.onboard_queue, index);
    let one = s.settlements(ids);
    let other = settled.deployments(queue);
    let away = ActionView::<AccountId>::DeregisterPara { id };
    let register = ActionView::<AccountId>::RegisterPara { id, parachain, code, initial_head_data };
    lemma_settlements_deregister(s, ids, id);
    lemma_contains_append(one, other, away);
    lemma_contains_append(one, other, register);
    if other.contains(away) {
        let i = choose|i: int| 0 <= i < other.len() && other[i] == away;
        lemma_deployments_only_register(settled, queue, i);
    }
    if one.contains(register) {
        let i = choose|i: int| 0 <= i < one.len() && one[i] == register;
        lemma_settlements_do_not_register(s, ids, i);
    }
    if other.contains(register) {
        let i = choose|i: int| 0 <= i < other.len() && other[i] == register;
        lemma_deployments_only_register(settled, queue, i);
        assert(settled.is_deployable(id));
    }
    if queue.contains(id) && settled.is_deployable(id) {
        lemma_deployments_register(settled, queue, id);
    }
}

/// What is asked for where just one para is managed and none is due: for its last deposit, that the
/// para be deregistered, unless it is on-boarding, and then that the deposit go to the off-boarding
/// account; for an earlier one, that the para's account get what need not be held any more; and
/// nothing for a para without deposits.
pub proof fn what_is_asked_for_one_para<AccountId: Account>(
    s: ModuleView<AccountId>,
    index: LeasePeriod,
    id: ParaId,
    deposits: Seq<Deposit<AccountId>>,
    outgoing: Balance,
    stays: Balance,
    rebate: Balance,
)
    requires
        s.managed_ids == seq![id],
        !s.onboard_queue.contains_key(index),
        are_deposits_of(s.deposits, id, deposits),
        deposits.len() > 0 ==> match deposits[0] {
            Some(deposit) => outgoing == deposit.1,
            None => outgoing == 0,
        },
        is_locked_from(deposits, 1, stays),
        outgoing >= stays ==> outgoing == stays + rebate,
    ensures
        ({
            let asked = requests_at_start(s, index);
            let to_offboarding = |who: AccountId| ActionView::<AccountId>::DepositCreating {
                who,
                amount: outgoing,
            };
            &&& deposits.len() == 0 ==> asked.len() == 0
            &&& deposits.len() == 1 && s.onboarding.contains_key(id) ==> asked.len() == 1
            &&& deposits.len() == 1 && !s.onboarding.contains_key(id) ==> {
                &&& asked.len() == 2
                &&& asked[0] == (ActionView::<AccountId>::DeregisterPara { id })
            }
            &&& deposits.len() == 1 && s.offboarding.contains_key(id) ==> asked.last()
                == to_offboarding(s.offboarding[id])
            &&& deposits.len() == 1 && !s.offboarding.contains_key(id) ==> asked.last()
                == to_offboarding(AccountId::spec_unset())
            &&& deposits.len() > 1 && outgoing < stays ==> asked.len() == 0
            &&& deposits.len() > 1 && outgoing >= stays ==> {
                &&& asked.len() == 1
                &&& asked[0] == (ActionView::<AccountId>::DepositCreating {
                    who: AccountId::spec_of_para(id),
                    amount: rebate,
                })
            }
        }),
{
    assert(s.deposits_of(id) =~= deposits);
    lemma_requests(s, index);
    let asked = requests_at_start(s, index);
    assert(seq![id].drop_last() =~= Seq::empty());
    assert(s.settlements(seq![id].drop_last()) == Seq::<ActionView<AccountId>>::empty());
    assert(before_commissioning(s, index).deployments(list_at(s.onboard_queue, index)) =~= Seq::<
        ActionView<AccountId>,
    >::empty());
    assert(asked =~= s.settlement(id));
    if deposits.len() > 0 {
        refund_is_the_difference(deposits, outgoing, stays);
    }
}

/// What is asked for where none is due is asked for para by para, in the order of the managed IDs:
/// each para has its own requests, whatever else is managed.
pub proof fn paras_are_settled_one_by_one<AccountId: Account>(
    s: ModuleView<AccountId>,
    index: LeasePeriod,
    one: Seq<ParaId>,
    other: Seq<ParaId>,
)
    requires
        s.managed_ids == one + other,
        !s.onboard_queue.contains_key(index),
    ensures
        requests_at_start(s, index) == requests_at_start(
            (ModuleView { managed_ids: one, ..s }),
            index,
        ) + requests_at_start((ModuleView { managed_ids: other, ..s }), index),
{
    let a = ModuleView { managed_ids: one, ..s };
    let b = ModuleView { managed_ids: other, ..s };
    lemma_requests(s, index);
    lemma_requests(a, index);
    lemma_requests(b, index);
    lemma_settlements_agree(s, a, one);
    lemma_settlements_agree(s, b, other);
    lemma_settlements_append(s, one, other);
    let none = Seq::<ActionView<AccountId>>::empty();
    assert(before_commissioning(s, index).deployments(list_at(s.onboard_queue, index)) =~= none);
    assert(before_commissioning(a, index).deployments(list_at(a.onboard_queue, index)) =~= none);
    assert(before_commissioning(b, index).deployments(list_at(b.onboard_queue, index)) =~= none);
    assert(requests_at_start(s, index) =~= requests_at_start(a, index) + requests_at_start(
        b,
        index,
    ));
}

/// The managed paras are settled first, as if none were due, and then those that are due are
/// commissioned, as if none were managed.
pub proof fn settling_comes_before_commissioning<AccountId: Account>(
    s: ModuleView<AccountId>,
    index: LeasePeriod,
)
    ensures
        ({
            let none_due = ModuleView { onboard_queue: s.onboard_queue.remove(index), ..s };
            let none_managed = ModuleView {
                managed_ids: Seq::empty(),
                onboarding: none_due.period_started(index).onboarding,
                ..s
            };
            requests_at_start(s, index) == requests_at_start(none_due, index) + requests_at_start(
                none_managed,
                index,
            )
        }),
{
    let none_due = ModuleView { onboard_queue: s.onboard_queue.remove(index), ..s };
    let settled = before_commissioning(s, index);
    let middle = none_due.period_started(index);
    let none_managed = ModuleView {
        managed_ids: Seq::empty(),
        onboarding: middle.onboarding,
        ..s
    };
    let queue = list_at(s.onboard_queue, index);
    let none = Seq::<ActionView<AccountId>>::empty();
    lemma_requests(s, index);
    lemma_requests(none_due, index);
    lemma_requests(none_managed, index);
    lemma_settlements_agree(s, none_due, s.managed_ids);
    assert(before_commissioning(none_due, index).deployments(
        list_at(none_due.onboard_queue, index),
    ) =~= none);
    assert(middle.onboarding =~= settled.onboarding);
    assert(before_commissioning(none_managed, index).onboarding =~= settled.onboarding);
    lemma_deployments_agree(before_commissioning(none_managed, index), settled, queue);
    assert(none_managed.settlements(none_managed.managed_ids) =~= none);
    assert(requests_at_start(s, index) =~= requests_at_start(none_due, index) + requests_at_start(
        none_managed,
        index,
    ));
}

/// What is asked for where no para is managed and just one is due: that it be registered, with its
/// code and head data, if it has both.
pub proof fn what_is_asked_for_one_that_is_due<AccountId: Account>(
    s: ModuleView<AccountId>,
    index: LeasePeriod,
    id: ParaId,
    code: Seq<u8>,
    initial_head_data: Seq<u8>,
)
    requires
        s.managed_ids == Seq::<ParaId>::empty(),
        s.onboard_queue.contains_key(index),
        s.onboard_queue[index] == seq![id],
    ensures
        ({
            let asked = requests_at_start(s, index);
            let deployable = s.onboarding.contains_key(id) && s.onboarding[id].1 is Deploy;
            &&& !deployable ==> asked.len() == 0
            &&& deployable ==> asked.len() == 1
            &&& deployable && s.onboarding[id].1->code == code
                && s.onboarding[id].1->Deploy_initial_head_data == initial_head_data ==> asked[0]
                == (ActionView::<AccountId>::RegisterPara {
                id,
                parachain: true,
                code,
                initial_head_data,
            })
        }),
{
    lemma_requests(s, index);
    let settled = before_commissioning(s, index);
    assert(settled.onboarding =~= s.onboarding);
    assert(seq![id].drop_last() =~= Seq::empty());
    assert(settled.deployments(seq![id].drop_last()) == Seq::<ActionView<AccountId>>::empty());
    assert(s.settlements(s.managed_ids) =~= Seq::empty());
    assert(requests_at_start(s, index) =~= settled.deployments(seq![id]));
    assert(!Seq::<ParaId>::empty().contains(id));
}

/// Where no para is managed, those that are due are commissioned in the order of the queue, each on
/// its own; one that stands in the queue already is not registered again.
pub proof fn paras_are_commissioned_one_by_one<AccountId: Account>(
    s: ModuleView<AccountId>,
    index: LeasePeriod,
    queue: Seq<ParaId>,
    id: ParaId,
)
    requires
        s.managed_ids == Seq::<ParaId>::empty(),
    ensures
        ({
            let with = |ids: Seq<ParaId>| ModuleView {
                onboard_queue: s.onboard_queue.insert(index, ids),
                ..s
            };
            let before = requests_at_start(with(queue), index);
            let after = requests_at_start(with(queue.push(id)), index);
            &&& queue.contains(id) ==> after == before
            &&& !queue.contains(id) ==> after == before + requests_at_start(with(seq![id]), index)
            &&& queue.len() == 0 ==> before.len() == 0
        }),
{
    let a = ModuleView { onboard_queue: s.onboard_queue.insert(index, queue), ..s };
    let b = ModuleView { onboard_queue: s.onboard_queue.insert(index, queue.push(id)), ..s };
    let c = ModuleView { onboard_queue: s.onboard_queue.insert(index, seq![id]), ..s };
    lemma_requests(a, index);
    lemma_requests(b, index);
    lemma_requests(c, index);
    let none = Seq::<ActionView<AccountId>>::empty();
    assert(a.settlements(a.managed_ids) =~= none);
    assert(b.settlements(b.managed_ids) =~= none);
    assert(c.settlements(c.managed_ids) =~= none);
    assert(before_commissioning(a, index).onboarding =~= s.onboarding);
    assert(before_commissioning(b, index).onboarding =~= s.onboarding);
    assert(before_commissioning(c, index).onboarding =~= s.onboarding);
    lemma_deployments_agree(before_commissioning(a, index), s, queue);
    lemma_deployments_agree(before_commissioning(b, index), s, queue.push(id));
    lemma_deployments_agree(before_commissioning(c, index), s, seq![id]);
    assert(requests_at_start(a, index) =~= s.deployments(queue));
    assert(requests_at_start(b, index) =~= s.deployments(queue.push(id)));
    assert(requests_at_start(c, index) =~= s.deployments(seq![id]));
    assert(queue.push(id).drop_last() =~= queue);
    assert(seq![id].drop_last() =~= Seq::empty());
    assert(s.deployments(seq![id].drop_last()) == none);
    assert(!Seq::<ParaId>::empty().contains(id));
    if !queue.contains(id) {
        assert(s.deployments(queue.push(id)) =~= s.deployments(queue) + s.deployments(seq![id]));
    }
}

} // verus!
