//! What other parts of a runtime offer to the leasing system, and what it offers to them.

use crate::dispatch::DispatchResult;
use crate::primitives::{HeadData, ParaId, ValidationCode};
use vstd::prelude::*;

verus! {

/// Parachain registration API.
pub trait Registrar<AccountId> {
    /// Create a new unique parachain identity for later registration.
    fn new_id(&mut self) -> ParaId;

    /// Checks whether the given initial head data size falls within the limit.
    fn head_data_size_allowed(&self, head_data_size: u32) -> bool;

    /// Checks whether the given validation code falls within the limit.
    fn code_size_allowed(&self, code_size: u32) -> bool;

    /// Register a parachain with given `code` and `initial_head_data`. `id` must not yet be registered or it will
    /// result in a error.
    ///
    /// This does not enforce any code size or initial head data limits, as these
    /// are governable and parameters for parachain initialization are often
    /// determined long ahead-of-time. Not checking these values ensures that changes to limits
    /// do not invalidate in-progress auction winners.
    fn register_para(
        &mut self,
        id: ParaId,
        parachain: bool,
        code: ValidationCode,
        initial_head_data: HeadData,
    ) -> DispatchResult;

    /// Deregister a parachain with given `id`. If `id` is not currently registered, an error is returned.
    fn deregister_para(&mut self, id: ParaId) -> DispatchResult;
}

/// Lease manager. Used by the auction module to handle parachain slot leases.
pub trait Leaser {
    type AccountId;

    type LeasePeriod;

    type Balance;

    /// The leasing system is in a state in which it can work.
    spec fn is_ready(&self) -> bool;

    /// The end of the given lease can be told.
    spec fn is_lease(period_begin: Self::LeasePeriod, period_count: Self::LeasePeriod) -> bool;

    /// The amount of balance held in reserve on `leaser`'s account for leasing `para`.
    spec fn held(&self, para: ParaId, leaser: Self::AccountId) -> Self::Balance;

    /// What has to be reserved on `leaser`'s account for a lease of a slot for `para` at `amount`, beyond what is
    /// held there already; nothing, if more than `amount` is held.
    spec fn lacking(
        &self,
        para: ParaId,
        leaser: Self::AccountId,
        amount: Self::Balance,
    ) -> Option<Self::Balance>;

    /// Lease a new parachain slot for `para`.
    ///
    /// `leaser` shall have a total of `amount` balance reserved by the implementor of this trait: it makes up for
    /// what is lacking by a call of `reserve`, and makes no such call if nothing is.
    ///
    /// Note: The implementor of the trait (the leasing system) is expected to do all reserve/unreserve calls. The
    /// caller of this trait *SHOULD NOT* pre-reserve the deposit (though should ensure that it is reservable).
    ///
    /// The lease will last from `period_begin` for `period_count` lease periods. It is undefined if the `para`
    /// already has a slot leased during those periods.
    ///
    /// Returns `Err` if the `amount` was unable to be reserved.
    fn lease_out<E, F: FnOnce(Self::AccountId, Self::Balance) -> Result<(), E>>(
        &mut self,
        para: ParaId,
        leaser: Self::AccountId,
        amount: Self::Balance,
        period_begin: Self::LeasePeriod,
        period_count: Self::LeasePeriod,
        reserve: F,
    ) -> (result: Result<(), E>)
        requires
            old(self).is_ready(),
            Self::is_lease(period_begin, period_count),
            old(self).lacking(para, leaser, amount) matches Some(additional) ==> call_requires(
                reserve,
                (leaser, additional),
            ),
        ensures
            final(self).is_ready(),
            match old(self).lacking(para, leaser, amount) {
                Some(additional) => call_ensures(reserve, (leaser, additional), result),
                None => result is Ok,
            },
    ;

    /// Return the amount of balance currently held in reserve on `leaser`'s account for leasing `para`. This won't
    /// go down outside of a lease period.
    fn deposit_held(&self, para: ParaId, leaser: &Self::AccountId) -> (amount: Self::Balance)
        ensures
            amount == self.held(para, *leaser),
    ;

    /// The lease period. This is constant, but can't be a `const` due to it being a runtime configurable quantity.
    fn lease_period(&self) -> Self::LeasePeriod;

    /// Returns the current lease period.
    fn lease_period_index(&self) -> Self::LeasePeriod
        requires
            self.is_ready(),
    ;
}

/// Auxilliary for when there's an attempt to swap two parachains/parathreads.
pub trait SwapAux {
    /// Both parachains are deployed, so that they can be swapped.
    spec fn can_swap(&self, one: ParaId, other: ParaId) -> bool;

    /// The state is one in which swaps can be made.
    spec fn is_swappable(&self) -> bool;

    /// Result describing whether it is possible to swap two parachains. Doesn't mutate state.
    fn ensure_can_swap(&self, one: ParaId, other: ParaId) -> (result: Result<(), &'static str>)
        ensures
            result is Ok <==> self.can_swap(one, other),
    ;

    /// Updates any needed state/references to enact a logical swap of two parachains. Identity,
    /// code and `head_data` remain equivalent for all parachains/threads, however other properties
    /// such as leases, deposits held and thread/chain nature are swapped.
    ///
    /// May only be called on a state that `ensure_can_swap` has previously returned `Ok` for: if this is
    /// not the case, the result is undefined. May only return an error if `ensure_can_swap` also returns
    /// an error.
    fn on_swap(&mut self, one: ParaId, other: ParaId) -> (result: Result<(), &'static str>)
        requires
            old(self).is_swappable(),
        ensures
            final(self).is_swappable(),
            old(self).can_swap(one, other) ==> result is Ok,
    ;
}

} // verus!
