//! The state of the leasing system.

use crate::account::Account;
use crate::bidder::{IncomingParachain, IncomingView};
use crate::deposits::{entry, held_of, Deposit};
use crate::dispatch::{Action, ActionView};
use crate::hashing::CodeHash;
use crate::primitives::{Balance, BlockNumber, LeasePeriod, ParaId};
use std::collections::BTreeMap;
use vstd::prelude::*;

verus! {

/// The leasing system: the configuration that it runs under, and its storage items.
///
/// The host sets `block_number`, and performs the `actions` in the order in which they were asked
/// for.
pub struct Module<AccountId> {
    /// The number of blocks over which a single period lasts.
    pub lease_period: BlockNumber,
    /// The number of the block that is being executed.
    pub block_number: BlockNumber,
    /// Ordered list of all `ParaId` values that are managed by this module. This includes
    /// chains that are not yet deployed (but have won an auction in the future).
    pub managed_ids: Vec<ParaId>,
    /// Various amounts on deposit for each parachain.
    ///
    /// The actual amount locked on its behalf at any time is the maximum item in this list. The
    /// first item in the list is the amount locked for the current Lease Period. Following
    /// items are for the subsequent lease periods.
    ///
    /// The default value (an empty list) implies that the parachain no longer exists (or never
    /// existed) as far as this module is concerned.
    ///
    /// If a parachain doesn't exist *yet* but is scheduled to exist in the future, then it
    /// will be left-padded with one or more `None`s to denote the fact that nothing is held on
    /// deposit for the non-existent chain currently, but is held at some point in the future.
    ///
    /// Each entry represents a (depositor, deposit) pair. If it's `None` for a particular lease
    /// period, then the para isn't a parachain during that period.
    pub deposits: BTreeMap<ParaId, Vec<Deposit<AccountId>>>,
    /// The set of Para IDs that should be full parachains for the given lease period.
    pub leased: BTreeMap<LeasePeriod, Vec<ParaId>>,
    /// The set of Para IDs that are to be on-boarded at the beginning of the given lease period.
    pub onboard_queue: BTreeMap<LeasePeriod, Vec<ParaId>>,
    /// The lease period in which a para's first lease starts, and its deployment information. A
    /// para that has been registered, or that has been off-boarded, has no entry.
    pub onboarding: BTreeMap<ParaId, (LeasePeriod, IncomingParachain<AccountId, CodeHash>)>,
    /// The account that gets what is still on deposit for a para once the para is off-boarded.
    pub offboarding: BTreeMap<ParaId, AccountId>,
    /// What the host has been asked to do.
    pub actions: Vec<Action<AccountId>>,
}

/// What the state of the leasing system is, in mathematical terms.
#[verifier::ext_equal]
pub ghost struct ModuleView<AccountId> {
    pub lease_period: BlockNumber,
    pub block_number: BlockNumber,
    pub managed_ids: Seq<ParaId>,
    pub deposits: Map<ParaId, Seq<Deposit<AccountId>>>,
    pub leased: Map<LeasePeriod, Seq<ParaId>>,
    pub onboard_queue: Map<LeasePeriod, Seq<ParaId>>,
    pub onboarding: Map<ParaId, (LeasePeriod, IncomingView<AccountId, CodeHash>)>,
    pub offboarding: Map<ParaId, AccountId>,
    pub actions: Seq<ActionView<AccountId>>,
}

/// A map to lists, with the lists taken as sequences.
pub open spec fn lists<K, T>(m: Map<K, Vec<T>>) -> Map<K, Seq<T>> {
    m.map_values(|list: Vec<T>| list@)
}

/// A map to deployment information, with that information taken by its view.
pub open spec fn incoming<AccountId>(
    m: Map<ParaId, (LeasePeriod, IncomingParachain<AccountId, CodeHash>)>,
) -> Map<ParaId, (LeasePeriod, IncomingView<AccountId, CodeHash>)> {
    m.map_values(|item: (LeasePeriod, IncomingParachain<AccountId, CodeHash>)| (item.0, item.1@))
}

/// What a list of actions asks for.
pub open spec fn requests<AccountId>(actions: Seq<Action<AccountId>>) -> Seq<
    ActionView<AccountId>,
> {
    actions.map_values(|action: Action<AccountId>| action@)
}

/// The list that `m` holds at `key`; an empty one where there is none.
pub open spec fn list_at<K, T>(m: Map<K, Seq<T>>, key: K) -> Seq<T> {
    if m.contains_key(key) {
        m[key]
    } else {
        Seq::empty()
    }
}

/// No two IDs are the same, and each is greater than those that stand to its left.
pub open spec fn ascending(ids: Seq<ParaId>) -> bool {
    forall|i: int, j: int| 0 <= i < j < ids.len() ==> ids[i] < ids[j]
}

impl<AccountId> View for Module<AccountId> {
    type V = ModuleView<AccountId>;

    open spec fn view(&self) -> ModuleView<AccountId> {
        ModuleView {
            lease_period: self.lease_period,
            block_number: self.block_number,
            managed_ids: self.managed_ids@,
            deposits: lists(self.deposits@),
            leased: lists(self.leased@),
            onboard_queue: lists(self.onboard_queue@),
            onboarding: incoming(self.onboarding@),
            offboarding: self.offboarding@,
            actions: requests(self.actions@),
        }
    }
}

impl<AccountId> ModuleView<AccountId> {
    /// A lease period lasts for some time, and the managed IDs are in order.
    pub open spec fn well_formed(self) -> bool {
        &&& self.lease_period > 0
        &&& ascending(self.managed_ids)
    }

    /// The deposits of a para, the first of them for the current lease period.
    pub open spec fn deposits_of(self, para: ParaId) -> Seq<Deposit<AccountId>> {
        list_at(self.deposits, para)
    }

    /// The amount of balance held in reserve on `leaser`'s account for leasing `para`.
    pub open spec fn deposit_held(self, para: ParaId, leaser: AccountId) -> Balance {
        held_of(self.deposits_of(para), leaser)
    }

    /// The current lease period.
    pub open spec fn lease_period_index(self) -> LeasePeriod {
        self.block_number / self.lease_period
    }

    /// What is held for a para in a lease period, if it is a parachain during that period.
    pub open spec fn lease(self, para: ParaId, period: LeasePeriod) -> Deposit<AccountId> {
        entry(self.deposits_of(para), period - self.lease_period_index())
    }

    /// The state in which the host has been asked for one thing more.
    pub open spec fn asked(self, request: ActionView<AccountId>) -> Self {
        ModuleView { actions: self.actions.push(request), ..self }
    }
}

impl<AccountId> Module<AccountId> {
    /// The invariant of the leasing system.
    pub open spec fn well_formed(self) -> bool {
        self@.well_formed()
    }

    /// A leasing system in which nothing has happened yet, with periods of `lease_period` blocks.
    pub fn new(lease_period: BlockNumber) -> (module: Self)
        requires
            lease_period > 0,
        ensures
            module.well_formed(),
            module@ == (ModuleView::<AccountId> {
                lease_period,
                block_number: 0,
                managed_ids: Seq::empty(),
                deposits: Map::empty(),
                leased: Map::empty(),
                onboard_queue: Map::empty(),
                onboarding: Map::empty(),
                offboarding: Map::empty(),
                actions: Seq::empty(),
            }),
    {
        let module: Self = Module {
            lease_period,
            block_number: 0,
            managed_ids: Vec::new(),
            deposits: BTreeMap::new(),
            leased: BTreeMap::new(),
            onboard_queue: BTreeMap::new(),
            onboarding: BTreeMap::new(),
            offboarding: BTreeMap::new(),
            actions: Vec::new(),
        };
        assert(module@.deposits =~= Map::empty());
        assert(module@.leased =~= Map::empty());
        assert(module@.onboard_queue =~= Map::empty());
        assert(module@.onboarding =~= Map::empty());
        assert(module@.actions =~= Seq::empty());
        module
    }

    /// Whether the invariant holds of a state that the host has put together.
    pub fn is_well_formed(&self) -> (result: bool)
        ensures
            result == self.well_formed(),
    {
        if self.lease_period == 0 {
            return false;
        }
        let mut i: usize = 1;
        while i < self.managed_ids.len()
            invariant
                1 <= i,
                forall|j: int, k: int|
                    0 <= j < k < i && k < self.managed_ids@.len() ==> self.managed_ids@[j]
                        < self.managed_ids@[k],
            decreases self.managed_ids@.len() - i,
        {
            if self.managed_ids[i - 1] >= self.managed_ids[i] {
                return false;
            }
            i = i + 1;
        }
        true
    }

    /// Tells the leasing system which block is being executed.
    pub fn set_block_number(&mut self, n: BlockNumber)
        ensures
            final(self)@ == (ModuleView { block_number: n, ..old(self)@ }),
    {
        self.block_number = n;
    }

    /// Hands out what the host has been asked to do, the first request first, and asks for it no
    /// more.
    pub fn take_actions(&mut self) -> (actions: Vec<Action<AccountId>>)
        ensures
            requests(actions@) == old(self)@.actions,
            final(self)@ == (ModuleView { actions: Seq::empty(), ..old(self)@ }),
    {
        let mut actions: Vec<Action<AccountId>> = Vec::new();
        core::mem::swap(&mut self.actions, &mut actions);
        assert(self@.actions =~= Seq::empty());
        actions
    }

    /// Asks the host for one thing more.
    pub(crate) fn ask(&mut self, action: Action<AccountId>)
        ensures
            final(self)@ == old(self)@.asked(action@),
    {
        self.actions.push(action);
        assert(self@.actions =~= old(self)@.actions.push(action@));
    }

    /// Ordered list of all `ParaId` values that are managed by this module.
    pub fn managed_ids(&self) -> (ids: &Vec<ParaId>)
        ensures
            ids@ == self@.managed_ids,
    {
        &self.managed_ids
    }
}

impl<AccountId: Account> Module<AccountId> {
    /// Various amounts on deposit for a parachain; an empty list if it does not exist.
    pub fn deposits(&self, para: ParaId) -> (deposits: Vec<Deposit<AccountId>>)
        ensures
            deposits@ == self@.deposits_of(para),
    {
        let mut copy: Vec<Deposit<AccountId>> = Vec::new();
        match self.deposits.get(&para) {
            Some(deposits) => {
                let mut i: usize = 0;
                while i < deposits.len()
                    invariant
                        i <= deposits@.len(),
                        copy@ =~= deposits@.take(i as int),
                    decreases deposits@.len() - i,
                {
                    copy.push(deposits[i]);
                    i = i + 1;
                }
                assert(copy@ =~= deposits@);
            },
            None => {},
        }
        copy
    }
}

/// Writing a list into a map.
pub proof fn lemma_lists_insert<K, T>(m: Map<K, Vec<T>>, key: K, list: Vec<T>)
    ensures
        lists(m.insert(key, list)) == lists(m).insert(key, list@),
{
    assert(lists(m.insert(key, list)) =~= lists(m).insert(key, list@));
}

/// Removing a list from a map.
pub proof fn lemma_lists_remove<K, T>(m: Map<K, Vec<T>>, key: K)
    ensures
        lists(m.remove(key)) == lists(m).remove(key),
{
    assert(lists(m.remove(key)) =~= lists(m).remove(key));
}

/// Writing deployment information into a map.
pub proof fn lemma_incoming_insert<AccountId>(
    m: Map<ParaId, (LeasePeriod, IncomingParachain<AccountId, CodeHash>)>,
    key: ParaId,
    item: (LeasePeriod, IncomingParachain<AccountId, CodeHash>),
)
    ensures
        incoming(m.insert(key, item)) == incoming(m).insert(key, (item.0, item.1@)),
{
    assert(incoming(m.insert(key, item)) =~= incoming(m).insert(key, (item.0, item.1@)));
}

/// Removing deployment information from a map.
pub proof fn lemma_incoming_remove<AccountId>(
    m: Map<ParaId, (LeasePeriod, IncomingParachain<AccountId, CodeHash>)>,
    key: ParaId,
)
    ensures
        incoming(m.remove(key)) == incoming(m).remove(key),
{
    assert(incoming(m.remove(key)) =~= incoming(m).remove(key));
}

} // verus!
