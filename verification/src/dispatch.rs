//! What the leasing system exchanges with the runtime that hosts it: where calls come from, how
//! they fail, what is announced, and what the host is asked to do.

use crate::bidder::NewBidder;
use crate::primitives::{Balance, HeadData, LeasePeriod, ParaId, ValidationCode};
use vstd::prelude::*;

verus! {

/// Where a call comes from.
#[derive(Clone, Copy, PartialEq, Eq, Debug)]
pub enum Origin<AccountId> {
    /// The system itself.
    Root,
    /// The given account, which has signed the call.
    Signed(AccountId),
    /// Nobody in particular.
    Unsigned,
}

/// The ways in which the leasing system refuses a call.
#[derive(Clone, Copy, PartialEq, Eq, Debug)]
pub enum Error {
    /// The lease period is in the past.
    LeasePeriodInPast,
    /// The origin for this call must be a parachain.
    NotParaOrigin,
    /// The parachain ID is not onboarding.
    ParaNotOnboarding,
    /// The origin for this call must be the origin who registered the parachain.
    InvalidOrigin,
    /// Parachain is already registered.
    AlreadyRegistered,
    /// The code must correspond to the hash.
    InvalidCode,
    /// Deployment data has not been set for this parachain.
    UnsetDeployData,
    /// The bid must overlap all intersecting ranges.
    NonIntersectingRange,
    /// Given code size is too large.
    CodeTooLarge,
    /// Given initial head data is too large.
    HeadDataTooLarge,
}

/// Why a call failed.
#[derive(Clone, Copy, PartialEq, Eq, Debug)]
pub enum DispatchError {
    /// Some error for which there is no more than a description.
    Other(&'static str),
    /// The call must not come from its origin.
    BadOrigin,
    /// The leasing system refused the call.
    Module(Error),
}

/// The outcome of a call.
pub type DispatchResult = Result<(), DispatchError>;

/// The lease periods of one lease: `period_count` of them, the first of which is `period_begin`.
#[derive(Clone, Copy, PartialEq, Eq, Debug)]
pub struct LeaseRange {
    pub period_begin: LeasePeriod,
    pub period_count: LeasePeriod,
}

/// Something that has happened.
#[derive(Clone, Copy, PartialEq, Eq, Debug)]
pub enum Event<AccountId> {
    /// A new [lease_period] is beginning.
    NewLeasePeriod(LeasePeriod),
    /// Someone won the right to deploy a parachain. Balance amount is deducted for deposit.
    /// [bidder, range, parachain_id, amount]
    WonDeploy(NewBidder<AccountId>, LeaseRange, ParaId, Balance),
    /// An existing parachain won the right to continue.
    /// First balance is the extra amount reserved. Second is the total amount reserved.
    /// [parachain_id, range, extra_reserved, total_amount]
    WonRenewal(ParaId, LeaseRange, Balance, Balance),
    /// Funds were reserved for a winning bid. First balance is the extra amount reserved.
    /// Second is the total. [bidder, extra_reserved, total_amount]
    Reserved(AccountId, Balance, Balance),
    /// Funds were unreserved since bidder is no longer active. [bidder, amount]
    Unreserved(AccountId, Balance),
}

/// Something that the host is asked to do. None of it is answered.
#[derive(Clone, PartialEq, Eq, Debug)]
pub enum Action<AccountId> {
    /// Announce an event.
    DepositEvent(Event<AccountId>),
    /// Add an amount to the free balance of an account, which is created if need be.
    DepositCreating { who: AccountId, amount: Balance },
    /// Register a para with the registrar.
    RegisterPara {
        id: ParaId,
        parachain: bool,
        code: ValidationCode,
        initial_head_data: HeadData,
    },
    /// Deregister a para with the registrar.
    DeregisterPara { id: ParaId },
}

/// What an `Action` asks for, with code and head data taken as sequences of bytes.
pub ghost enum ActionView<AccountId> {
    DepositEvent(Event<AccountId>),
    DepositCreating { who: AccountId, amount: Balance },
    RegisterPara { id: ParaId, parachain: bool, code: Seq<u8>, initial_head_data: Seq<u8> },
    DeregisterPara { id: ParaId },
}

impl<AccountId> View for Action<AccountId> {
    type V = ActionView<AccountId>;

    open spec fn view(&self) -> ActionView<AccountId> {
        match *self {
            Action::DepositEvent(event) => ActionView::DepositEvent(event),
            Action::DepositCreating { who, amount } => ActionView::DepositCreating { who, amount },
            Action::RegisterPara { id, parachain, code, initial_head_data } => {
                ActionView::RegisterPara {
                    id,
                    parachain,
                    code: code@,
                    initial_head_data: initial_head_data@,
                }
            },
            Action::DeregisterPara { id } => ActionView::DeregisterPara { id },
        }
    }
}

/// Get the account that signed a call; a call that nobody signed is refused.
pub fn ensure_signed<AccountId>(origin: Origin<AccountId>) -> (result: Result<
    AccountId,
    DispatchError,
>)
    ensures
        result == match origin {
            Origin::Signed(who) => Ok(who),
            _ => Err(DispatchError::BadOrigin),
        },
{
    match origin {
        Origin::Signed(who) => Ok(who),
        _ => Err(DispatchError::BadOrigin),
    }
}

} // verus!
