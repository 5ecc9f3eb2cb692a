//! On-boarding paras: taking them under management, and setting what they are deployed with.

use crate::account::Account;
use crate::bidder::{IncomingParachain, IncomingView};
use crate::dispatch::{
    ensure_signed, Action, ActionView, DispatchError, DispatchResult, Error, Origin,
};
use crate::hashing::{blake_two_256, hash_of, same_hash, CodeHash};
use crate::ordered::{binary_search, ordered, precedes, totally_ordered};
use crate::primitives::{HeadData, LeasePeriod, ParaId, SubId, ValidationCode};
use crate::state::{
    ascending, lemma_incoming_insert, lemma_incoming_remove, Module, ModuleView,
};
use crate::traits::{Leaser, Registrar};
use vstd::prelude::*;

verus! {

impl<AccountId> ModuleView<AccountId> {
    /// `after` is this state with the para `id` under management, and nothing else changed.
    pub open spec fn registered(self, after: Self, id: ParaId) -> bool {
        &&& after == ModuleView { managed_ids: after.managed_ids, ..self }
        &&& ascending(after.managed_ids)
        &&& forall|other: ParaId| #[trigger]
            after.managed_ids.contains(other) <==> self.managed_ids.contains(other) || other == id
    }

    /// How a call of `fix_deploy_data` ends, given whether the registrar lets the sizes pass.
    pub open spec fn fix_outcome(
        self,
        origin: Origin<AccountId>,
        sub: SubId,
        para_id: ParaId,
        head_data_allowed: bool,
        code_allowed: bool,
    ) -> DispatchResult {
        if origin !is Signed {
            Err(DispatchError::BadOrigin)
        } else if !self.onboarding.contains_key(para_id) {
            Err(DispatchError::Module(Error::ParaNotOnboarding))
        } else {
            match self.onboarding[para_id].1 {
                IncomingView::Unset(bidder) => if bidder.who != origin->Signed_0 || bidder.sub
                    != sub {
                    Err(DispatchError::Module(Error::InvalidOrigin))
                } else if !head_data_allowed {
                    Err(DispatchError::Module(Error::HeadDataTooLarge))
                } else if !code_allowed {
                    Err(DispatchError::Module(Error::CodeTooLarge))
                } else {
                    Ok(())
                },
                _ => Err(DispatchError::Module(Error::AlreadyRegistered)),
            }
        }
    }

    /// The state once the deploy information of a para has been fixed.
    pub open spec fn fixed(
        self,
        para_id: ParaId,
        code_hash: CodeHash,
        code_size: u32,
        initial_head_data: Seq<u8>,
    ) -> Self {
        ModuleView {
            onboarding: self.onboarding.insert(
                para_id,
                (
                    self.onboarding[para_id].0,
                    IncomingView::Fixed { code_hash, code_size, initial_head_data },
                ),
            ),
            ..self
        }
    }

    /// How a call of `elaborate_deploy_data` ends, given what `code` hashes to.
    pub open spec fn elaborate_outcome(
        self,
        para_id: ParaId,
        code: Seq<u8>,
        hash: Seq<u8>,
    ) -> DispatchResult {
        if !self.onboarding.contains_key(para_id) {
            Err(DispatchError::Module(Error::ParaNotOnboarding))
        } else {
            match self.onboarding[para_id].1 {
                IncomingView::Fixed { code_hash, code_size, initial_head_data } => if code.len()
                    as u32 != code_size || code_hash@ != hash {
                    Err(DispatchError::Module(Error::InvalidCode))
                } else {
                    Ok(())
                },
                _ => Err(DispatchError::Module(Error::UnsetDeployData)),
            }
        }
    }

    /// The state once the code of a para, whose deploy information was fixed before, is known. If
    /// the para's first lease period has not yet begun, the information is kept until it has;
    /// otherwise the para is registered at once, and no longer on-boarding.
    pub open spec fn elaborated(self, para_id: ParaId, code: Seq<u8>) -> Self {
        let (starts, details) = self.onboarding[para_id];
        let initial_head_data = details->Fixed_initial_head_data;
        if starts > self.lease_period_index() {
            ModuleView {
                onboarding: self.onboarding.insert(
                    para_id,
                    (starts, IncomingView::Deploy { code, initial_head_data }),
                ),
                ..self
            }
        } else {
            ModuleView { onboarding: self.onboarding.remove(para_id), ..self }.asked(
                ActionView::RegisterPara { id: para_id, parachain: true, code, initial_head_data },
            )
        }
    }
}

/// `result` is how a check of two sizes by `registrar` can end: that of the head data is looked at
/// first, and that of the code only if the first is within the limit.
pub open spec fn size_check<AccountId, R: Registrar<AccountId>>(
    registrar: &R,
    head_data_size: u32,
    code_size: u32,
    result: DispatchResult,
) -> bool {
    ||| {
        &&& call_ensures(R::head_data_size_allowed, (registrar, head_data_size), false)
        &&& result == Err::<(), DispatchError>(DispatchError::Module(Error::HeadDataTooLarge))
    }
    ||| {
        &&& call_ensures(R::head_data_size_allowed, (registrar, head_data_size), true)
        &&& call_ensures(R::code_size_allowed, (registrar, code_size), false)
        &&& result == Err::<(), DispatchError>(DispatchError::Module(Error::CodeTooLarge))
    }
    ||| {
        &&& call_ensures(R::head_data_size_allowed, (registrar, head_data_size), true)
        &&& call_ensures(R::code_size_allowed, (registrar, code_size), true)
        &&& result == Ok::<(), DispatchError>(())
    }
}

/// In a list of IDs, ascending means ordered, with nothing twice.
pub(crate) proof fn lemma_ascending(ids: Seq<ParaId>)
    ensures
        totally_ordered::<ParaId>(),
        ascending(ids) <==> ordered(ids) && ids.no_duplicates(),
{
    if ascending(ids) {
        assert forall|i: int, j: int| 0 <= i < j < ids.len() implies !precedes(
            #[trigger] ids[j],
            #[trigger] ids[i],
        ) by {
            assert(ids[i] < ids[j]);
        }
    }
    if ordered(ids) && ids.no_duplicates() {
        assert forall|i: int, j: int| 0 <= i < j < ids.len() implies ids[i] < ids[j] by {
            assert(!precedes(ids[j], ids[i]));
        }
    }
}

impl<AccountId: Account> Module<AccountId> {
    /// Takes a para under management, unless it is managed already.
    pub fn register(&mut self, origin: Origin<AccountId>, id: ParaId) -> (result: DispatchResult)
        requires
            old(self).well_formed(),
        ensures
            result is Ok,
            final(self).well_formed(),
            old(self)@.registered(final(self)@, id),
            old(self)@.managed_ids.contains(id) ==> final(self)@ == old(self)@,
    {
        let ghost before = self.managed_ids@;
        proof {
            lemma_ascending(before);
        }
        match binary_search(self.managed_ids.as_slice(), &id) {
            Err(pos) => {
                self.managed_ids.insert(pos, id);
                let ghost after = before.insert(pos as int, id);
                proof {
                    assert forall|i: int, j: int| 0 <= i < j < after.len() implies after[i]
                        < after[j] by {
                        if i < pos {
                            assert(precedes(before[i], id));
                        }
                        if j > pos {
                            assert(precedes(id, before[j - 1]));
                        }
                    }
                    assert forall|other: ParaId| #[trigger]
                        after.contains(other) <==> before.contains(other) || other == id by {
                        if before.contains(other) {
                            let i = choose|i: int| 0 <= i < before.len() && before[i] == other;
                            assert(after[if i < pos { i } else { i + 1 }] == other);
                        }
                        if other == id {
                            assert(after[pos as int] == id);
                        }
                        if after.contains(other) && other != id {
                            let i = choose|i: int| 0 <= i < after.len() && after[i] == other;
                            assert(before[if i < pos { i } else { i - 1 }] == other);
                        }
                    }
                }
            },
            Ok(_) => {},
        }
        Ok(())
    }

    /// Accepts a request to let go of a para. The para stays managed until its leases have run
    /// out.
    pub fn unregister(&mut self, origin: Origin<AccountId>, id: ParaId) -> (result: DispatchResult)
        ensures
            result is Ok,
            final(self)@ == old(self)@,
    {
        Ok(())
    }

    /// Checks that `origin` is the bidder who may set the deploy information of a para, and that it
    /// is not set yet. Returns the lease period in which the para's first lease starts.
    fn ensure_can_fix(&self, origin: Origin<AccountId>, sub: SubId, para_id: ParaId) -> (result:
        Result<LeasePeriod, DispatchError>)
        ensures
            match result {
                Ok(starts) => {
                    &&& self@.fix_outcome(origin, sub, para_id, true, true) is Ok
                    &&& starts == self@.onboarding[para_id].0
                },
                Err(error) => self@.fix_outcome(origin, sub, para_id, true, true) == Err::<
                    (),
                    DispatchError,
                >(error),
            },
    {
        let who: AccountId = match ensure_signed(origin) {
            Ok(who) => who,
            Err(error) => {
                return Err(error);
            },
        };
        match self.onboarding.get(&para_id) {
            Some(item) => match &item.1 {
                IncomingParachain::Unset(nb) => {
                    if !(nb.who.same(&who) && nb.sub == sub) {
                        return Err(DispatchError::Module(Error::InvalidOrigin));
                    }
                    Ok(item.0)
                },
                _ => Err(DispatchError::Module(Error::AlreadyRegistered)),
            },
            None => Err(DispatchError::Module(Error::ParaNotOnboarding)),
        }
    }

    /// Set the deploy information for a successful bid to deploy a new parachain.
    ///
    /// - `origin` must be the successful bidder account.
    /// - `sub` is the sub-bidder ID of the bidder.
    /// - `para_id` is the parachain ID allotted to the winning bidder.
    /// - `code_hash` is the hash of the parachain's Wasm validation function.
    /// - `initial_head_data` is the parachain's initial head data.
    ///
    /// Use in concert with `elaborate_deploy_data`. The two are different functions to allow for parachains
    /// sending this dispatch (which should be quite small) and a third-party sending the full code to the
    /// relay-chain directly.
    pub fn fix_deploy_data<R: Registrar<AccountId>>(
        &mut self,
        registrar: &R,
        origin: Origin<AccountId>,
        sub: SubId,
        para_id: ParaId,
        code_hash: CodeHash,
        code_size: u32,
        initial_head_data: HeadData,
    ) -> (result: DispatchResult)
        ensures
            old(self)@.fix_outcome(origin, sub, para_id, true, true) is Err ==> result == old(
                self,
            )@.fix_outcome(origin, sub, para_id, true, true),
            old(self)@.fix_outcome(origin, sub, para_id, true, true) is Ok ==> size_check(
                registrar,
                initial_head_data@.len() as u32,
                code_size,
                result,
            ),
            old(self).well_formed() ==> final(self).well_formed(),
            final(self)@ == if result is Ok {
                old(self)@.fixed(para_id, code_hash, code_size, initial_head_data@)
            } else {
                old(self)@
            },
    {
        if let Err(error) = self.ensure_can_fix(origin, sub, para_id) {
            return Err(error);
        }
        let head_data_size: u32 = initial_head_data.0.len() as u32;
        let head_data_allowed: bool = registrar.head_data_size_allowed(head_data_size);
        let code_allowed: bool = head_data_allowed && registrar.code_size_allowed(code_size);
        self.fix_deploy_data_given(
            origin,
            sub,
            para_id,
            code_hash,
            code_size,
            initial_head_data,
            head_data_allowed,
            code_allowed,
        )
    }

    /// Set the deploy information for a successful bid to deploy a new parachain, given whether
    /// the registrar lets the size of the head data, and that of the code, pass.
    pub fn fix_deploy_data_given(
        &mut self,
        origin: Origin<AccountId>,
        sub: SubId,
        para_id: ParaId,
        code_hash: CodeHash,
        code_size: u32,
        initial_head_data: HeadData,
        head_data_allowed: bool,
        code_allowed: bool,
    ) -> (result: DispatchResult)
        ensures
            result == old(self)@.fix_outcome(
                origin,
                sub,
                para_id,
                head_data_allowed,
                code_allowed,
            ),
            old(self).well_formed() ==> final(self).well_formed(),
            final(self)@ == if result is Ok {
                old(self)@.fixed(para_id, code_hash, code_size, initial_head_data@)
            } else {
                old(self)@
            },
    {
        let starts: LeasePeriod = match self.ensure_can_fix(origin, sub, para_id) {
            Ok(starts) => starts,
            Err(error) => {
                return Err(error);
            },
        };
        if !head_data_allowed {
            return Err(DispatchError::Module(Error::HeadDataTooLarge));
        }
        if !code_allowed {
            return Err(DispatchError::Module(Error::CodeTooLarge));
        }
        let item: (LeasePeriod, IncomingParachain<AccountId, CodeHash>) = (
            starts,
            IncomingParachain::Fixed { code_hash, code_size, initial_head_data },
        );
        proof {
            lemma_incoming_insert(self.onboarding@, para_id, item);
        }
        self.onboarding.insert(para_id, item);
        Ok(())
    }

    /// Note a new para's code.
    ///
    /// This must be called after `fix_deploy_data` and `code` must be the preimage of the
    /// `code_hash` passed there for the same `para_id`.
    ///
    /// This may be called before or after the beginning of the parachain's first lease period.
    /// If called before then the parachain will become active at the first block of its
    /// starting lease period. If after, then it will become active immediately after this call.
    ///
    /// - `_origin` is irrelevant.
    /// - `para_id` is the parachain ID whose code will be elaborated.
    /// - `code` is the preimage of the registered `code_hash` of `para_id`.
    pub fn elaborate_deploy_data(
        &mut self,
        _origin: Origin<AccountId>,
        para_id: ParaId,
        code: ValidationCode,
    ) -> (result: DispatchResult)
        requires
            old(self).well_formed(),
        ensures
            final(self).well_formed(),
            result == old(self)@.elaborate_outcome(para_id, code@, blake_two_256(code@)),
            final(self)@ == if result is Ok {
                old(self)@.elaborated(para_id, code@)
            } else {
                old(self)@
            },
    {
        let hash: CodeHash = hash_of(code.0.as_slice());
        self.elaborate_deploy_data_given(para_id, code, hash)
    }

    /// Note a new para's code, given what it hashes to.
    pub fn elaborate_deploy_data_given(
        &mut self,
        para_id: ParaId,
        code: ValidationCode,
        hash: CodeHash,
    ) -> (result: DispatchResult)
        requires
            old(self).well_formed(),
        ensures
            final(self).well_formed(),
            result == old(self)@.elaborate_outcome(para_id, code@, hash@),
            final(self)@ == if result is Ok {
                old(self)@.elaborated(para_id, code@)
            } else {
                old(self)@
            },
    {
        let ghost before = self@;
        match self.onboarding.get(&para_id) {
            Some(item) => match &item.1 {
                IncomingParachain::Fixed { code_hash, code_size, .. } => {
                    if code.0.len() as u32 != *code_size {
                        return Err(DispatchError::Module(Error::InvalidCode));
                    }
                    if !same_hash(code_hash, &hash) {
                        return Err(DispatchError::Module(Error::InvalidCode));
                    }
                },
                _ => {
                    return Err(DispatchError::Module(Error::UnsetDeployData));
                },
            },
            None => {
                return Err(DispatchError::Module(Error::ParaNotOnboarding));
            },
        }
        proof {
            lemma_incoming_remove(self.onboarding@, para_id);
        }
        if let Some((starts, IncomingParachain::Fixed { initial_head_data, .. })) =
            self.onboarding.remove(&para_id) {
            if starts > self.lease_period_index() {
                // Hasn't yet begun. Replace the on-boarding entry with the new information.
                let item: (LeasePeriod, IncomingParachain<AccountId, CodeHash>) = (
                    starts,
                    IncomingParachain::Deploy { code, initial_head_data },
                );
                proof {
                    lemma_incoming_insert(self.onboarding@, para_id, item);
                }
                self.onboarding.insert(para_id, item);
                assert(self@.onboarding =~= before.elaborated(para_id, code@).onboarding);
            } else {
                // Should have already begun. The on-boarding entry is gone; register the
                // parachain for its immediate start.
                self.ask(
                    Action::RegisterPara { id: para_id, parachain: true, code, initial_head_data },
                );
            }
            assert(self@ =~= before.elaborated(para_id, code@));
        }
        Ok(())
    }
}

} // verus!
