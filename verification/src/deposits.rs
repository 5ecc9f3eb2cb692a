//! What is held on deposit for one para, lease period by lease period.

use crate::account::Account;
use crate::primitives::Balance;
use vstd::prelude::*;

verus! {

/// What is held for a para in one lease period: the depositor and the amount, or nothing, if the
/// para isn't a parachain during that period.
pub type Deposit<AccountId> = Option<(AccountId, Balance)>;

/// The greatest of some amounts; zero, if there are none.
pub open spec fn greatest(amounts: Seq<Balance>) -> Balance
    decreases amounts.len(),
{
    if amounts.len() == 0 {
        0
    } else {
        let others = greatest(amounts.drop_last());
        if others <= amounts.last() {
            amounts.last()
        } else {
            others
        }
    }
}

/// The amount that a deposit comes to.
pub open spec fn amount_of<AccountId>(deposit: Deposit<AccountId>) -> Balance {
    match deposit {
        Some((_, amount)) => amount,
        None => 0,
    }
}

/// The amount that a deposit comes to, if it is `who` that made it.
pub open spec fn share_of<AccountId>(deposit: Deposit<AccountId>, who: AccountId) -> Balance {
    match deposit {
        Some((depositor, amount)) => if depositor == who {
            amount
        } else {
            0
        },
        None => 0,
    }
}

/// The amount that is locked on a para's behalf: the greatest of its deposits.
pub open spec fn locked<AccountId>(deposits: Seq<Deposit<AccountId>>) -> Balance {
    greatest(deposits.map_values(|d: Deposit<AccountId>| amount_of(d)))
}

/// The amount that is held of `who` for a para: the greatest of the deposits that `who` made.
pub open spec fn held_of<AccountId>(
    deposits: Seq<Deposit<AccountId>>,
    who: AccountId,
) -> Balance {
    greatest(deposits.map_values(|d: Deposit<AccountId>| share_of(d, who)))
}

/// What is given back when the first of the lease periods in `deposits` ends: what was held for
/// that period beyond what has to stay locked.
pub open spec fn refund<AccountId>(deposits: Seq<Deposit<AccountId>>) -> Option<Balance> {
    let outgoing = amount_of(deposits.first());
    let new_held = locked(deposits.drop_first());
    if outgoing >= new_held {
        Some((outgoing - new_held) as Balance)
    } else {
        None
    }
}

/// What is held for the lease period that lies `index` periods ahead.
pub open spec fn entry<AccountId>(deposits: Seq<Deposit<AccountId>>, index: int) -> Deposit<
    AccountId,
> {
    if 0 <= index < deposits.len() {
        deposits[index]
    } else {
        None
    }
}

/// `deposits` with a new lease: `count` lease periods, the first of them `offset` periods ahead.
/// The period is left as it is where something is held for it already.
pub open spec fn with_lease<AccountId>(
    deposits: Seq<Deposit<AccountId>>,
    offset: int,
    count: int,
    leaser: AccountId,
    amount: Balance,
) -> Seq<Deposit<AccountId>> {
    let len = if deposits.len() >= offset + count {
        deposits.len() as int
    } else {
        offset + count
    };
    Seq::new(
        len as nat,
        |i: int|
            if offset <= i < offset + count && entry(deposits, i) is None {
                Some((leaser, amount))
            } else {
                entry(deposits, i)
            },
    )
}

/// The greatest of some amounts is one of them, and none is greater.
pub proof fn lemma_greatest(amounts: Seq<Balance>)
    ensures
        forall|i: int| 0 <= i < amounts.len() ==> #[trigger] amounts[i] <= greatest(amounts),
        amounts.len() == 0 ==> greatest(amounts) == 0,
        amounts.len() > 0 ==> exists|i: int|
            0 <= i < amounts.len() && #[trigger] amounts[i] == greatest(amounts),
    decreases amounts.len(),
{
    if amounts.len() > 0 {
        let rest = amounts.drop_last();
        lemma_greatest(rest);
        assert forall|i: int| 0 <= i < amounts.len() implies #[trigger] amounts[i] <= greatest(
            amounts,
        ) by {
            if i < rest.len() {
                assert(rest[i] <= greatest(rest));
            }
        }
        if greatest(amounts) == amounts.last() {
            assert(amounts[amounts.len() - 1] == greatest(amounts));
        } else {
            let i = choose|i: int| 0 <= i < rest.len() && #[trigger] rest[i] == greatest(rest);
            assert(amounts[i] == greatest(amounts));
        }
    }
}

/// The greatest of some amounts is the only bound of them that is one of them, or zero.
pub proof fn lemma_greatest_is(amounts: Seq<Balance>, bound: Balance)
    requires
        forall|i: int| 0 <= i < amounts.len() ==> #[trigger] amounts[i] <= bound,
        bound == 0 || exists|i: int| 0 <= i < amounts.len() && #[trigger] amounts[i] == bound,
    ensures
        greatest(amounts) == bound,
{
    lemma_greatest(amounts);
}

/// The amount that is locked on a para's behalf.
pub fn locked_amount<AccountId>(deposits: &Vec<Deposit<AccountId>>) -> (amount: Balance)
    ensures
        amount == locked(deposits@),
{
    let mut amount: Balance = 0;
    let mut i: usize = 0;
    let ghost amounts = deposits@.map_values(|d: Deposit<AccountId>| amount_of(d));
    while i < deposits.len()
        invariant
            i <= deposits@.len(),
            amounts == deposits@.map_values(|d: Deposit<AccountId>| amount_of(d)),
            amount == greatest(amounts.take(i as int)),
        decreases deposits@.len() - i,
    {
        let next: Balance = match &deposits[i] {
            Some(deposit) => deposit.1,
            None => 0,
        };
        assert(amounts.take(i + 1).drop_last() =~= amounts.take(i as int));
        if amount <= next {
            amount = next;
        }
        i = i + 1;
    }
    assert(amounts.take(i as int) =~= amounts);
    amount
}

/// The amount that is held of `who` for a para.
pub fn held_amount<AccountId: Account>(
    deposits: &Vec<Deposit<AccountId>>,
    who: &AccountId,
) -> (amount: Balance)
    ensures
        amount == held_of(deposits@, *who),
{
    let mut amount: Balance = 0;
    let mut i: usize = 0;
    let ghost shares = deposits@.map_values(|d: Deposit<AccountId>| share_of(d, *who));
    while i < deposits.len()
        invariant
            i <= deposits@.len(),
            shares == deposits@.map_values(|d: Deposit<AccountId>| share_of(d, *who)),
            amount == greatest(shares.take(i as int)),
        decreases deposits@.len() - i,
    {
        let next: Balance = match &deposits[i] {
            Some(deposit) => if deposit.0.same(who) {
                deposit.1
            } else {
                0
            },
            None => 0,
        };
        assert(shares.take(i + 1).drop_last() =~= shares.take(i as int));
        if amount <= next {
            amount = next;
        }
        i = i + 1;
    }
    assert(shares.take(i as int) =~= shares);
    amount
}

/// Places the deposits of a new lease: `count` lease periods, the first of them `offset` periods
/// ahead.
pub fn place_lease<AccountId: Account>(
    deposits: &mut Vec<Deposit<AccountId>>,
    offset: usize,
    count: usize,
    leaser: AccountId,
    amount: Balance,
)
    requires
        offset + count <= usize::MAX,
    ensures
        final(deposits)@ == with_lease(
            old(deposits)@,
            offset as int,
            count as int,
            leaser,
            amount,
        ),
{
    let ghost before = deposits@;
    // Left-pad as necessary: nothing is held before the lease begins.
    while deposits.len() < offset
        invariant
            before.len() <= deposits@.len(),
            deposits@.len() <= before.len() || deposits@.len() <= offset,
            forall|i: int| 0 <= i < deposits@.len() ==> #[trigger] deposits@[i] == entry(before, i),
        decreases offset - deposits@.len(),
    {
        deposits.push(None);
    }
    // Then place the deposit values for as long as the chain should exist.
    let end: usize = offset + count;
    let mut i: usize = offset;
    while i < end
        invariant
            offset <= i <= end == offset + count,
            offset <= deposits@.len(),
            before.len() <= deposits@.len(),
            deposits@.len() == before.len() || deposits@.len() == i,
            i <= deposits@.len(),
            forall|j: int|
                0 <= j < deposits@.len() ==> #[trigger] deposits@[j] == if offset <= j < i && entry(
                    before,
                    j,
                ) is None {
                    Some((leaser, amount))
                } else {
                    entry(before, j)
                },
        decreases end - i,
    {
        if deposits.len() > i {
            // Already exists. If nothing is held, a later slot was leased before; if something is,
            // the chain bought the same lease period twice, which is safe to ignore.
            if deposits[i].is_none() {
                deposits[i] = Some((leaser, amount));
            }
        } else {
            // Doesn't exist. This is usual.
            deposits.push(Some((leaser, amount)));
        }
        i = i + 1;
    }
    assert(deposits@ =~= with_lease(before, offset as int, count as int, leaser, amount));
}

/// Ends the first of the lease periods in `deposits`, and says what is to be given back: what was
/// held for that period beyond what has to stay locked.
pub fn end_first_period<AccountId>(deposits: &mut Vec<Deposit<AccountId>>) -> (rebate: Option<Balance>)
    requires
        old(deposits)@.len() > 0,
    ensures
        final(deposits)@ == old(deposits)@.drop_first(),
        rebate == refund(old(deposits)@),
{
    let first: Deposit<AccountId> = deposits.remove(0);
    let outgoing: Balance = match first {
        Some(deposit) => deposit.1,
        None => 0,
    };
    assert(deposits@ =~= old(deposits)@.drop_first());
    let new_held: Balance = locked_amount(deposits);
    outgoing.checked_sub(new_held)
}

} // verus!
