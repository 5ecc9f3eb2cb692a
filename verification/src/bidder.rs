//! Who bids for a slot, and what is known of a parachain that is to be deployed in one.

use crate::account::Account;
use crate::primitives::{HeadData, ParaId, SubId, ValidationCode};
use vstd::prelude::*;

verus! {

/// A bidder identifier, which is just the combination of an account ID and a sub-bidder ID.
/// This is called `NewBidder` in order to distinguish between bidders that would deploy a *new*
/// parachain and pre-existing parachains bidding to renew themselves.
#[derive(Clone, Copy, PartialEq, Eq, Debug)]
pub struct NewBidder<AccountId> {
    /// The bidder's account ID; this is the account that funds the bid.
    pub who: AccountId,
    /// An additional ID to allow the same account ID (and funding source) to have multiple
    /// logical bidders.
    pub sub: SubId,
}

/// The desired target of a bidder in an auction.
#[derive(Clone, PartialEq, Eq, Debug)]
pub enum Bidder<AccountId> {
    /// An account ID, funds coming from that account.
    New(NewBidder<AccountId>),
    /// An existing parachain, funds coming from the amount locked as part of a previous bid topped
    /// up with funds administered by the parachain.
    Existing(ParaId),
}

impl<AccountId: Account> Bidder<AccountId> {
    /// Get the account that will fund this bid.
    pub fn funding_account(&self) -> (account: AccountId)
        ensures
            account == match *self {
                Bidder::New(new_bidder) => new_bidder.who,
                Bidder::Existing(para_id) => AccountId::spec_of_para(para_id),
            },
    {
        match self {
            Bidder::New(new_bidder) => new_bidder.who,
            Bidder::Existing(para_id) => AccountId::of_para(*para_id),
        }
    }
}

/// Information regarding a parachain that will be deployed.
///
/// We store either the bidder that will be able to set the final deployment information or the
/// information itself.
#[derive(Clone, PartialEq, Eq, Debug)]
pub enum IncomingParachain<AccountId, Hash> {
    /// Deploy information not yet set; just the bidder identity.
    Unset(NewBidder<AccountId>),
    /// Deploy information set only by code hash; so we store the code hash, code size, and head data.
    ///
    /// The code size must be included so that checks against a maximum code size
    /// can be done. If the size of the preimage of the code hash does not match
    /// the given code size, it will not be possible to register the parachain.
    Fixed { code_hash: Hash, code_size: u32, initial_head_data: HeadData },
    /// Deploy information fully set; so we store the code and head data.
    Deploy { code: ValidationCode, initial_head_data: HeadData },
}

/// What an `IncomingParachain` says, with code and head data taken as sequences of bytes.
pub ghost enum IncomingView<AccountId, Hash> {
    Unset(NewBidder<AccountId>),
    Fixed { code_hash: Hash, code_size: u32, initial_head_data: Seq<u8> },
    Deploy { code: Seq<u8>, initial_head_data: Seq<u8> },
}

impl<AccountId, Hash> View for IncomingParachain<AccountId, Hash> {
    type V = IncomingView<AccountId, Hash>;

    open spec fn view(&self) -> IncomingView<AccountId, Hash> {
        match *self {
            IncomingParachain::Unset(bidder) => IncomingView::Unset(bidder),
            IncomingParachain::Fixed { code_hash, code_size, initial_head_data } => {
                IncomingView::Fixed {
                    code_hash,
                    code_size,
                    initial_head_data: initial_head_data@,
                }
            },
            IncomingParachain::Deploy { code, initial_head_data } => IncomingView::Deploy {
                code: code@,
                initial_head_data: initial_head_data@,
            },
        }
    }
}

/// The funding mode for the bid; either a continuation of a previous funder or a completely new funder.
#[derive(Clone, PartialEq, Eq, Debug)]
pub enum Funding<AccountId> {
    /// Indicates a bid was made by the same source as the slot winner immediately prior, and thus is a continuation.
    /// The same reserved funds are used between the bids, so once the previous slot ends, the funds reserved for it
    /// will not be (entirely) unreserved.
    Continuation,
    /// Indicates a bid is made by a different source as immediately prior, and different. At the end of the previous
    /// slot, the reserved funds may be freed. The full bid will have been reserved from the funds of the given account
    /// ID.
    New(AccountId),
}

} // verus!
