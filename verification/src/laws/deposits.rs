//! What is held on deposit, said of the single deposits.

use crate::deposits::{held_of, lemma_greatest, locked, refund, with_lease, Deposit};
use crate::laws::{amounts, shares};
use crate::primitives::{Balance, ParaId};
use vstd::prelude::*;

verus! {

/// `deposits` is what `m` holds for a para; nothing, where it has no entry.
pub open spec fn are_deposits_of<AccountId>(
    m: Map<ParaId, Seq<Deposit<AccountId>>>,
    para: ParaId,
    deposits: Seq<Deposit<AccountId>>,
) -> bool {
    if m.contains_key(para) {
        deposits == m[para]
    } else {
        deposits.len() == 0
    }
}

/// `held` is the greatest amount that `who` has deposited, or zero, if `who` has deposited none.
pub open spec fn is_held_of<AccountId>(
    deposits: Seq<Deposit<AccountId>>,
    who: AccountId,
    held: Balance,
) -> bool {
    &&& forall|i: int|
        0 <= i < deposits.len() && (#[trigger] deposits[i]) is Some && deposits[i].unwrap().0 == who
            ==> deposits[i].unwrap().1 <= held
    &&& held == 0 || exists|i: int|
        0 <= i < deposits.len() && #[trigger] deposits[i] == Some((who, held))
}

/// `amount` is the greatest amount that anyone has deposited for the lease periods from `first` on,
/// or zero, if nothing is deposited for any of them.
pub open spec fn is_locked_from<AccountId>(
    deposits: Seq<Deposit<AccountId>>,
    first: int,
    amount: Balance,
) -> bool {
    &&& forall|i: int|
        first <= i < deposits.len() && (#[trigger] deposits[i]) is Some ==> deposits[i].unwrap().1
            <= amount
    &&& amount == 0 || exists|i: int|
        first <= i < deposits.len() && (#[trigger] deposits[i]) is Some && deposits[i].unwrap().1
            == amount
}

/// What is held of an account for a para is the greatest of the deposits that the account made.
pub proof fn held_is_the_greatest_of_ones_deposits<AccountId>(
    deposits: Seq<Deposit<AccountId>>,
    who: AccountId,
    held: Balance,
)
    ensures
        is_held_of(deposits, who, held) <==> held == held_of(deposits, who),
{
    let all = shares(deposits, who);
    lemma_greatest(all);
    let greatest = held_of(deposits, who);
    assert forall|i: int|
        0 <= i < deposits.len() && (#[trigger] deposits[i]) is Some && deposits[i].unwrap().0
            == who implies deposits[i].unwrap().1 <= greatest by {
        assert(all[i] == deposits[i].unwrap().1);
    }
    if greatest != 0 {
        let i = choose|i: int| 0 <= i < all.len() && #[trigger] all[i] == greatest;
        assert(deposits[i] == Some((who, greatest)));
    }
    if is_held_of(deposits, who, held) {
        if held != 0 {
            let i = choose|i: int|
                0 <= i < deposits.len() && #[trigger] deposits[i] == Some((who, held));
            assert(deposits[i].unwrap().1 <= greatest);
        }
        if greatest != 0 {
            let i = choose|i: int|
                0 <= i < deposits.len() && #[trigger] deposits[i] == Some((who, greatest));
            assert(deposits[i].unwrap().1 <= held);
        }
    }
}

/// What is locked on a para's behalf is the greatest of its deposits, whoever made them.
pub proof fn locked_is_the_greatest_deposit<AccountId>(
    deposits: Seq<Deposit<AccountId>>,
    amount: Balance,
)
    ensures
        is_locked_from(deposits, 0, amount) <==> amount == locked(deposits),
{
    let all = amounts(deposits);
    lemma_greatest(all);
    let greatest = locked(deposits);
    assert forall|i: int|
        0 <= i < deposits.len() && (#[trigger] deposits[i]) is Some implies deposits[i].unwrap().1
        <= greatest by {
        assert(all[i] == deposits[i].unwrap().1);
    }
    if greatest != 0 {
        let i = choose|i: int| 0 <= i < all.len() && #[trigger] all[i] == greatest;
        assert(deposits[i] is Some && deposits[i].unwrap().1 == greatest);
    }
    if is_locked_from(deposits, 0, amount) {
        if amount != 0 {
            let i = choose|i: int|
                0 <= i < deposits.len() && (#[trigger] deposits[i]) is Some && deposits[i].unwrap().1
                    == amount;
            assert(deposits[i].unwrap().1 <= greatest);
        }
        if greatest != 0 {
            let i = choose|i: int|
                0 <= i < deposits.len() && (#[trigger] deposits[i]) is Some && deposits[i].unwrap().1
                    == greatest;
            assert(deposits[i].unwrap().1 <= amount);
        }
    }
}

/// When the first lease period ends, what comes back is what was deposited for it beyond the
/// greatest of the deposits for the lease periods that follow; nothing comes back if one of those is
/// greater.
pub proof fn refund_is_the_difference<AccountId>(
    deposits: Seq<Deposit<AccountId>>,
    outgoing: Balance,
    stays: Balance,
)
    requires
        deposits.len() > 0,
        match deposits[0] {
            Some(deposit) => outgoing == deposit.1,
            None => outgoing == 0,
        },
        is_locked_from(deposits, 1, stays),
    ensures
        match refund(deposits) {
            Some(rebate) => outgoing == stays + rebate,
            None => outgoing < stays,
        },
{
    let rest = deposits.drop_first();
    assert forall|i: int|
        0 <= i < rest.len() && (#[trigger] rest[i]) is Some implies rest[i].unwrap().1 <= stays by {
        assert(deposits[i + 1] == rest[i]);
    }
    if stays != 0 {
        let i = choose|i: int|
            1 <= i < deposits.len() && (#[trigger] deposits[i]) is Some && deposits[i].unwrap().1
                == stays;
        assert(rest[i - 1] == deposits[i]);
    }
    locked_is_the_greatest_deposit(rest, stays);
}

/// Placing a lease deposits `amount` of `leaser` for each of its lease periods for which nothing was
/// deposited, and leaves every other period as it was; before the lease begins, and where nothing
/// was known of a period, nothing is deposited.
pub proof fn placing_a_lease_fills_what_is_free<AccountId>(
    deposits: Seq<Deposit<AccountId>>,
    offset: int,
    count: int,
    leaser: AccountId,
    amount: Balance,
    i: int,
)
    requires
        0 <= offset,
        0 <= count,
    ensures
        ({
            let after = with_lease(deposits, offset, count, leaser, amount);
            &&& after.len() >= deposits.len()
            &&& after.len() >= offset + count
            &&& after.len() == deposits.len() || after.len() == offset + count
            &&& 0 <= i < deposits.len() && deposits[i] is Some ==> after[i] == deposits[i]
            &&& offset <= i < offset + count && !(i < deposits.len() && deposits[i] is Some)
                ==> after[i] == Some((leaser, amount))
            &&& 0 <= i < after.len() && !(offset <= i < offset + count) && !(i < deposits.len()
                && deposits[i] is Some) ==> after[i] is None
        }),
{
}

} // verus!
