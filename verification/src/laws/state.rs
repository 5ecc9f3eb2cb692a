//! What the state of the leasing system says, field by field.

use crate::account::{little_endian_byte, Account};
use crate::bidder::{IncomingParachain, IncomingView};
use crate::deposits::Deposit;
use crate::dispatch::{Action, ActionView};
use crate::laws::deposits::{are_deposits_of, held_is_the_greatest_of_ones_deposits, is_held_of};
use crate::onboarding::lemma_ascending;
use crate::ordered::{ordered, precedes, totally_ordered};
use crate::primitives::{Balance, HeadData, LeasePeriod, ParaId, ValidationCode};
use crate::state::{requests, Module, ModuleView};
use crate::traits::{Leaser, SwapAux};
use vstd::prelude::*;
use vstd::std_specs::convert::FromSpec;

verus! {

/// The view of a state leaves nothing out: each field says what the stored one does.
pub proof fn the_view_is_the_state<AccountId>(m: Module<AccountId>, key: u32, i: int)
    ensures
        m@.lease_period == m.lease_period,
        m@.block_number == m.block_number,
        m@.managed_ids == m.managed_ids@,
        m@.offboarding == m.offboarding@,
        m@.deposits.contains_key(key) == m.deposits@.contains_key(key),
        m.deposits@.contains_key(key) ==> m@.deposits[key] == m.deposits@[key]@,
        m@.leased.contains_key(key) == m.leased@.contains_key(key),
        m.leased@.contains_key(key) ==> m@.leased[key] == m.leased@[key]@,
        m@.onboard_queue.contains_key(key) == m.onboard_queue@.contains_key(key),
        m.onboard_queue@.contains_key(key) ==> m@.onboard_queue[key] == m.onboard_queue@[key]@,
        m@.onboarding.contains_key(key) == m.onboarding@.contains_key(key),
        m.onboarding@.contains_key(key) ==> m@.onboarding[key] == (
            m.onboarding@[key].0,
            m.onboarding@[key].1@,
        ),
        m@.actions.len() == m.actions@.len(),
        0 <= i < m.actions@.len() ==> m@.actions[i] == m.actions@[i]@,
{
}

/// The view of deployment information leaves nothing out.
pub proof fn the_view_is_the_deployment_information<AccountId, H>(
    details: IncomingParachain<AccountId, H>,
)
    ensures
        details matches IncomingParachain::Unset(bidder) ==> details@ == IncomingView::<
            AccountId,
            H,
        >::Unset(bidder),
        details matches IncomingParachain::Fixed { code_hash, code_size, initial_head_data }
            ==> details@ == (IncomingView::<AccountId, H>::Fixed {
            code_hash,
            code_size,
            initial_head_data: initial_head_data.0@,
        }),
        details matches IncomingParachain::Deploy { code, initial_head_data } ==> details@ == (
        IncomingView::<AccountId, H>::Deploy {
            code: code.0@,
            initial_head_data: initial_head_data.0@,
        }),
{
}

/// The view of a request leaves nothing out, and nor does that of a list of requests.
pub proof fn the_view_is_the_request<AccountId>(
    action: Action<AccountId>,
    actions: Seq<Action<AccountId>>,
    i: int,
)
    ensures
        action matches Action::DepositEvent(event) ==> action@ == ActionView::DepositEvent(event),
        action matches Action::DepositCreating { who, amount } ==> action@ == (
        ActionView::DepositCreating { who, amount }),
        action matches Action::RegisterPara { id, parachain, code, initial_head_data } ==> action@
            == (ActionView::<AccountId>::RegisterPara {
            id,
            parachain,
            code: code.0@,
            initial_head_data: initial_head_data.0@,
        }),
        action matches Action::DeregisterPara { id } ==> action@ == (ActionView::<
            AccountId,
        >::DeregisterPara { id }),
        requests(actions).len() == actions.len(),
        0 <= i < actions.len() ==> requests(actions)[i] == actions[i]@,
{
}

/// Code and head data are seen as the bytes that they are made of, and are made of all the bytes
/// that are given.
pub proof fn the_view_is_the_bytes(code: ValidationCode, head_data: HeadData, bytes: Vec<u8>)
    ensures
        code@ == code.0@,
        head_data@ == head_data.0@,
        <ValidationCode as FromSpec<Vec<u8>>>::obeys_from_spec(),
        <ValidationCode as FromSpec<Vec<u8>>>::from_spec(bytes).0 == bytes,
        <HeadData as FromSpec<Vec<u8>>>::obeys_from_spec(),
        <HeadData as FromSpec<Vec<u8>>>::from_spec(bytes).0 == bytes,
{
}

/// The invariant: a lease period lasts for at least one block, and of any two managed IDs the one
/// that stands to the right is the greater.
pub proof fn well_formed_means_in_order<AccountId: Account>(m: Module<AccountId>)
    ensures
        m.well_formed() <==> m.lease_period > 0 && forall|i: int, j: int|
            0 <= i < j < m.managed_ids@.len() ==> m.managed_ids@[i] < m.managed_ids@[j],
        m.is_ready() <==> m.well_formed(),
        m.is_swappable() <==> m.well_formed(),
        m@.well_formed() <==> m.well_formed(),
{
}

/// The order of IDs is that of the numbers that they are.
pub proof fn ids_are_ordered_as_numbers(x: ParaId, y: ParaId, ids: Seq<ParaId>)
    ensures
        totally_ordered::<ParaId>(),
        precedes(x, y) <==> x < y,
        ordered(ids) <==> forall|i: int, j: int| 0 <= i < j < ids.len() ==> ids[i] <= ids[j],
{
    lemma_ascending(ids);
    if ordered(ids) {
        assert forall|i: int, j: int| 0 <= i < j < ids.len() implies ids[i] <= ids[j] by {
            assert(!precedes(ids[j], ids[i]));
        }
    }
}

/// The current block lies within the current lease period.
pub proof fn the_block_lies_within_the_lease_period<AccountId>(s: ModuleView<AccountId>)
    requires
        s.lease_period > 0,
    ensures
        s.lease_period_index() * s.lease_period <= s.block_number,
        s.block_number < s.lease_period_index() * s.lease_period + s.lease_period,
{
    let n = s.block_number as int;
    let d = s.lease_period as int;
    assert(n / d * d <= n < n / d * d + d) by (nonlinear_arith)
        requires
            n >= 0,
            d > 0,
    ;
}

/// What is deposited for a para, and for one of its lease periods.
pub proof fn leases_are_the_deposits<AccountId>(
    s: ModuleView<AccountId>,
    para: ParaId,
    deposits: Seq<Deposit<AccountId>>,
    ahead: nat,
    period: LeasePeriod,
)
    requires
        are_deposits_of(s.deposits, para, deposits),
        period == s.lease_period_index() + ahead,
    ensures
        s.deposits_of(para) == deposits,
        s.lease(para, period) == if ahead < deposits.len() {
            deposits[ahead as int]
        } else {
            None
        },
{
}

/// What is held of an account for a para is the greatest of the deposits that the account made for
/// the para; what is lacking for a lease is the amount of the lease less what is held, and nothing
/// is reserved if more is held. Nothing else in the state matters.
pub proof fn lacking_is_what_is_not_held<AccountId: Account>(
    m: Module<AccountId>,
    para: ParaId,
    leaser: AccountId,
    amount: Balance,
    deposits: Seq<Deposit<AccountId>>,
    held: Balance,
)
    requires
        if m.deposits@.contains_key(para) {
            deposits == m.deposits@[para]@
        } else {
            deposits.len() == 0
        },
        is_held_of(deposits, leaser, held),
    ensures
        m.held(para, leaser) == held,
        m@.deposit_held(para, leaser) == held,
        match m.lacking(para, leaser, amount) {
            Some(additional) => held + additional == amount,
            None => held > amount,
        },
        match m@.additional_deposit(para, leaser, amount) {
            Some(additional) => held + additional == amount,
            None => held > amount,
        },
{
    assert(m@.deposits_of(para) =~= deposits);
    held_is_the_greatest_of_ones_deposits(deposits, leaser, held);
}

/// The end of a lease can be told exactly if the lease period that follows it has a number.
pub proof fn a_lease_has_an_end<AccountId: Account>(
    period_begin: LeasePeriod,
    period_count: LeasePeriod,
)
    ensures
        <Module<AccountId> as Leaser>::is_lease(period_begin, period_count) <==> period_begin
            + period_count <= LeasePeriod::MAX,
{
}

/// The account of a para, as a number: the letters `para` in its low half, and the para's ID in its
/// high half. No two paras have the same, and none has the account that stands for none.
pub proof fn numeric_para_accounts(one: ParaId, other: ParaId)
    ensures
        <u64 as Account>::spec_of_para(one) == 0x6172_6170 + 0x1_0000_0000 * one,
        <u64 as Account>::spec_unset() == 0,
        <u64 as Account>::spec_of_para(one) == <u64 as Account>::spec_of_para(other) ==> one
            == other,
        <u64 as Account>::spec_of_para(one) != <u64 as Account>::spec_unset(),
{
    crate::account::lemma_para_number(one);
    crate::account::lemma_para_number(other);
}

/// The account of a para, as bytes: the letters `para`, the para's ID with its lowest byte first, and
/// zeroes. No two paras have the same, and none has the account that stands for none.
pub proof fn long_para_accounts(one: ParaId, other: ParaId)
    ensures
        ({
            let account = <[u8; 32] as Account>::spec_of_para(one);
            let unset = <[u8; 32] as Account>::spec_unset();
            &&& account@.take(4) == seq![0x70u8, 0x61u8, 0x72u8, 0x61u8]
            &&& account@[4] + 0x100 * account@[5] + 0x1_0000 * account@[6] + 0x100_0000
                * account@[7] == one
            &&& forall|i: int| 8 <= i < 32 ==> #[trigger] account@[i] == 0
            &&& forall|i: int| 0 <= i < 32 ==> #[trigger] unset@[i] == 0
            &&& account == <[u8; 32] as Account>::spec_of_para(other) ==> one == other
            &&& account != unset
        }),
{
    let account = <[u8; 32] as Account>::spec_of_para(one);
    let unset = <[u8; 32] as Account>::spec_unset();
    let same = <[u8; 32] as Account>::spec_of_para(other);
    assert(account@.take(4) =~= seq![0x70u8, 0x61u8, 0x72u8, 0x61u8]);
    lemma_little_endian(one);
    lemma_little_endian(other);
    assert(account@[0] != unset@[0]);
    if account == same {
        assert(account@[4] == same@[4]);
        assert(account@[5] == same@[5]);
        assert(account@[6] == same@[6]);
        assert(account@[7] == same@[7]);
    }
}

/// The bytes of a number make up the number.
proof fn lemma_little_endian(n: u32)
    ensures
        little_endian_byte(n, 0) + 0x100 * little_endian_byte(n, 1) + 0x1_0000
            * little_endian_byte(n, 2) + 0x100_0000 * little_endian_byte(n, 3) == n,
{
}

/// Two paras can be swapped exactly if neither is on-boarding.
pub proof fn only_deployed_paras_can_be_swapped<AccountId: Account>(
    m: Module<AccountId>,
    one: ParaId,
    other: ParaId,
)
    ensures
        m.can_swap(one, other) <==> !m.onboarding@.contains_key(one) && !m.onboarding@.contains_key(
            other,
        ),
{
}

} // verus!
