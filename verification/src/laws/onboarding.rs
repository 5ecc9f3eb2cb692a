//! What on-boarding does, field by field.

use crate::bidder::IncomingView;
use crate::dispatch::{ActionView, DispatchError, DispatchResult, Error, Origin};
use crate::hashing::CodeHash;
use crate::onboarding::size_check;
use crate::primitives::{ParaId, SubId};
use crate::state::ModuleView;
use crate::traits::Registrar;
use vstd::prelude::*;

verus! {

/// A call was refused with `error`.
pub open spec fn refused_with(result: DispatchResult, error: Error) -> bool {
    result == Err::<(), DispatchError>(DispatchError::Module(error))
}

/// Taking a para under management adds it to the managed IDs, which stay in order, and changes
/// nothing else.
pub proof fn registration_adds_the_para<AccountId>(
    s: ModuleView<AccountId>,
    t: ModuleView<AccountId>,
    id: ParaId,
    other: ParaId,
)
    requires
        s.registered(t, id),
    ensures
        t.managed_ids.contains(id),
        other != id ==> t.managed_ids.contains(other) == s.managed_ids.contains(other),
        forall|i: int, j: int|
            0 <= i < j < t.managed_ids.len() ==> t.managed_ids[i] < t.managed_ids[j],
        t.lease_period == s.lease_period,
        t.block_number == s.block_number,
        t.deposits == s.deposits,
        t.leased == s.leased,
        t.onboard_queue == s.onboard_queue,
        t.onboarding == s.onboarding,
        t.offboarding == s.offboarding,
        t.actions == s.actions,
{
    assert(t.managed_ids.contains(id) <==> s.managed_ids.contains(id) || id == id);
    assert(t.managed_ids.contains(other) <==> s.managed_ids.contains(other) || other == id);
}

/// Deploy information is fixed only for a signed call of the very bidder that the para's entry
/// names, by account and by sub-bidder ID, and only if both sizes pass; and then it always is.
pub proof fn only_the_bidder_fixes_deploy_data<AccountId>(
    s: ModuleView<AccountId>,
    origin: Origin<AccountId>,
    sub: SubId,
    para: ParaId,
    head_data_allowed: bool,
    code_allowed: bool,
)
    ensures
        s.fix_outcome(origin, sub, para, head_data_allowed, code_allowed) is Ok <==> {
            &&& s.onboarding.contains_key(para)
            &&& s.onboarding[para].1 is Unset
            &&& origin == Origin::Signed(s.onboarding[para].1->Unset_0.who)
            &&& sub == s.onboarding[para].1->Unset_0.sub
            &&& head_data_allowed
            &&& code_allowed
        },
{
}

/// Why fixing deploy information is refused: an unsigned call, a para that is not on-boarding, one
/// whose information is set, a signer or a sub-bidder ID other than the bidder's (or both), head
/// data that is too large, and then code that is.
pub proof fn why_fixing_is_refused<AccountId>(
    s: ModuleView<AccountId>,
    origin: Origin<AccountId>,
    who: AccountId,
    sub: SubId,
    para: ParaId,
    head_data_allowed: bool,
    code_allowed: bool,
)
    ensures
        ({
            let result = s.fix_outcome(origin, sub, para, head_data_allowed, code_allowed);
            let signed = s.fix_outcome(
                Origin::Signed(who),
                sub,
                para,
                head_data_allowed,
                code_allowed,
            );
            let details = s.onboarding[para].1;
            let known = s.onboarding.contains_key(para);
            &&& origin is Root ==> result == Err::<(), DispatchError>(DispatchError::BadOrigin)
            &&& origin is Unsigned ==> result == Err::<(), DispatchError>(DispatchError::BadOrigin)
            &&& !known ==> refused_with(signed, Error::ParaNotOnboarding)
            &&& known && details is Fixed ==> refused_with(signed, Error::AlreadyRegistered)
            &&& known && details is Deploy ==> refused_with(signed, Error::AlreadyRegistered)
            &&& known && details is Unset && details->Unset_0.who != who ==> refused_with(
                signed,
                Error::InvalidOrigin,
            )
            &&& known && details is Unset && details->Unset_0.sub != sub ==> refused_with(
                signed,
                Error::InvalidOrigin,
            )
            &&& known && details is Unset && details->Unset_0.who == who && details->Unset_0.sub
                == sub ==> {
                &&& !head_data_allowed ==> refused_with(signed, Error::HeadDataTooLarge)
                &&& head_data_allowed && !code_allowed ==> refused_with(signed, Error::CodeTooLarge)
            }
        }),
{
}

/// A registrar that can answer in one way only decides about the sizes: that of the head data
/// first, and then that of the code.
pub proof fn the_registrar_decides_about_sizes<AccountId, R: Registrar<AccountId>>(
    registrar: &R,
    head_data_size: u32,
    code_size: u32,
    result: DispatchResult,
    head_data_allowed: bool,
    code_allowed: bool,
)
    requires
        forall|reply: bool| #[trigger]
            call_ensures(R::head_data_size_allowed, (registrar, head_data_size), reply) ==> reply
                == head_data_allowed,
        forall|reply: bool| #[trigger]
            call_ensures(R::code_size_allowed, (registrar, code_size), reply) ==> reply
                == code_allowed,
        size_check(registrar, head_data_size, code_size, result),
    ensures
        result is Ok <==> head_data_allowed && code_allowed,
        !head_data_allowed ==> refused_with(result, Error::HeadDataTooLarge),
        head_data_allowed && !code_allowed ==> refused_with(result, Error::CodeTooLarge),
{
}

/// Both sizes pass only if the registrar can answer so for each of them, and either is refused only
/// if it can answer that.
pub proof fn sizes_pass_on_the_word_of_the_registrar<AccountId, R: Registrar<AccountId>>(
    registrar: &R,
    head_data_size: u32,
    code_size: u32,
    result: DispatchResult,
)
    requires
        size_check(registrar, head_data_size, code_size, result),
    ensures
        result is Ok ==> {
            &&& call_ensures(R::head_data_size_allowed, (registrar, head_data_size), true)
            &&& call_ensures(R::code_size_allowed, (registrar, code_size), true)
        },
        result is Err ==> {
            ||| refused_with(result, Error::HeadDataTooLarge) && call_ensures(
                R::head_data_size_allowed,
                (registrar, head_data_size),
                false,
            )
            ||| refused_with(result, Error::CodeTooLarge) && call_ensures(
                R::code_size_allowed,
                (registrar, code_size),
                false,
            )
        },
{
}

/// Fixing deploy information writes down what was given, leaves the lease period in which the para
/// starts as it was, and changes nothing else.
pub proof fn fixing_writes_down_what_was_given<AccountId>(
    s: ModuleView<AccountId>,
    para: ParaId,
    code_hash: CodeHash,
    code_size: u32,
    initial_head_data: Seq<u8>,
    other: ParaId,
)
    requires
        s.onboarding.contains_key(para),
        other != para,
    ensures
        ({
            let t = s.fixed(para, code_hash, code_size, initial_head_data);
            &&& t.onboarding.contains_key(para)
            &&& t.onboarding[para].0 == s.onboarding[para].0
            &&& t.onboarding[para].1 is Fixed
            &&& t.onboarding[para].1->code_hash == code_hash
            &&& t.onboarding[para].1->code_size == code_size
            &&& t.onboarding[para].1->Fixed_initial_head_data == initial_head_data
            &&& t.onboarding.contains_key(other) == s.onboarding.contains_key(other)
            &&& s.onboarding.contains_key(other) ==> t.onboarding[other] == s.onboarding[other]
            &&& t.lease_period == s.lease_period
            &&& t.block_number == s.block_number
            &&& t.managed_ids == s.managed_ids
            &&& t.deposits == s.deposits
            &&& t.leased == s.leased
            &&& t.onboard_queue == s.onboard_queue
            &&& t.offboarding == s.offboarding
            &&& t.actions == s.actions
        }),
{
}

/// Code is accepted only for a para whose deploy information is fixed, and only if it has the very
/// size and the very hash that were fixed; and then it always is. Code of another size, or with
/// another hash, or both, is refused as invalid.
pub proof fn only_the_preimage_is_accepted<AccountId>(
    s: ModuleView<AccountId>,
    para: ParaId,
    code: Seq<u8>,
    hash: Seq<u8>,
)
    ensures
        ({
            let result = s.elaborate_outcome(para, code, hash);
            let details = s.onboarding[para].1;
            let known = s.onboarding.contains_key(para);
            &&& result is Ok <==> {
                &&& known
                &&& details is Fixed
                &&& details->code_size == code.len() as u32
                &&& details->code_hash@ == hash
            }
            &&& known && details is Fixed && details->code_size != code.len() as u32
                ==> refused_with(result, Error::InvalidCode)
            &&& known && details is Fixed && details->code_hash@ != hash ==> refused_with(
                result,
                Error::InvalidCode,
            )
            &&& known && details is Unset ==> refused_with(result, Error::UnsetDeployData)
            &&& known && details is Deploy ==> refused_with(result, Error::UnsetDeployData)
            &&& !known ==> refused_with(result, Error::ParaNotOnboarding)
        }),
{
}

/// Accepted code is kept, with the head data that was fixed, if the para's first lease period lies
/// ahead; if it has begun, the para is registered with both, as a parachain, and is on-boarding no
/// more. Nothing else changes.
pub proof fn accepted_code_is_kept_or_deployed<AccountId>(
    s: ModuleView<AccountId>,
    para: ParaId,
    code: Seq<u8>,
    starts: u32,
    code_hash: CodeHash,
    code_size: u32,
    initial_head_data: Seq<u8>,
    other: ParaId,
)
    requires
        s.onboarding.contains_key(para),
        s.onboarding[para] == (
            starts,
            (IncomingView::<AccountId, CodeHash>::Fixed {
                code_hash,
                code_size,
                initial_head_data,
            }),
        ),
        other != para,
    ensures
        ({
            let t = s.elaborated(para, code);
            let ahead = starts > s.block_number / s.lease_period;
            &&& t.onboarding.contains_key(para) == ahead
            &&& ahead ==> {
                &&& t.onboarding[para].0 == starts
                &&& t.onboarding[para].1 is Deploy
                &&& t.onboarding[para].1->code == code
                &&& t.onboarding[para].1->Deploy_initial_head_data == initial_head_data
                &&& t.actions == s.actions
            }
            &&& !ahead ==> {
                &&& t.actions.len() == s.actions.len() + 1
                &&& t.actions.drop_last() == s.actions
                &&& t.actions.last() == (ActionView::<AccountId>::RegisterPara {
                    id: para,
                    parachain: true,
                    code,
                    initial_head_data,
                })
            }
            &&& t.onboarding.contains_key(other) == s.onboarding.contains_key(other)
            &&& s.onboarding.contains_key(other) ==> t.onboarding[other] == s.onboarding[other]
            &&& t.lease_period == s.lease_period
            &&& t.block_number == s.block_number
            &&& t.managed_ids == s.managed_ids
            &&& t.deposits == s.deposits
            &&& t.leased == s.leased
            &&& t.onboard_queue == s.onboard_queue
            &&& t.offboarding == s.offboarding
        }),
{
    let t = s.elaborated(para, code);
    assert(t.actions.len() == s.actions.len() + 1 ==> t.actions.drop_last() =~= s.actions);
}

} // verus!
