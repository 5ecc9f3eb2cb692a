//! Runs the leasing system in a small runtime that keeps balances and registers parachains.

use slots::bidder::{IncomingParachain, NewBidder};
use slots::dispatch::{Action, DispatchError, DispatchResult, Error, Event, LeaseRange, Origin};
use slots::primitives::{Balance, BlockNumber, HeadData, LeasePeriod, ParaId, SubId, ValidationCode};
use slots::state::Module;
use slots::traits::{Leaser, Registrar, SwapAux};
use sp_runtime::traits::BlakeTwo256;
use std::collections::HashMap;

const MAX_CODE_SIZE: u32 = 100;
const MAX_HEAD_DATA_SIZE: u32 = 10;
const LEASE_PERIOD: BlockNumber = 10;

/// The account of para 0: the letters `para` and four zero bytes, the lowest first.
const ACCOUNT_OF_PARA_0: u64 = 0x6172_6170;

#[derive(Default)]
struct TestParachains {
    count: u32,
    parachains: HashMap<ParaId, (ValidationCode, HeadData)>,
}

impl Registrar<u64> for TestParachains {
    fn new_id(&mut self) -> ParaId {
        self.count += 1;
        self.count - 1
    }

    fn head_data_size_allowed(&self, head_data_size: u32) -> bool {
        head_data_size <= MAX_HEAD_DATA_SIZE
    }

    fn code_size_allowed(&self, code_size: u32) -> bool {
        code_size <= MAX_CODE_SIZE
    }

    fn register_para(
        &mut self,
        id: ParaId,
        _parachain: bool,
        code: ValidationCode,
        initial_head_data: HeadData,
    ) -> DispatchResult {
        if self.parachains.contains_key(&id) {
            panic!("ID already exists")
        }
        self.parachains.insert(id, (code, initial_head_data));
        Ok(())
    }

    fn deregister_para(&mut self, id: ParaId) -> DispatchResult {
        if !self.parachains.contains_key(&id) {
            panic!("ID doesn't exist")
        }
        self.parachains.remove(&id);
        Ok(())
    }
}

struct Runtime {
    slots: Module<u64>,
    parachains: TestParachains,
    free: HashMap<u64, Balance>,
    reserved: HashMap<u64, Balance>,
    events: Vec<Event<u64>>,
}

fn new_test_ext() -> Runtime {
    let mut free = HashMap::new();
    for (who, amount) in [(1, 10), (2, 20), (3, 30), (4, 40), (5, 50), (6, 60)] {
        free.insert(who, amount);
    }
    Runtime {
        slots: Module::new(LEASE_PERIOD),
        parachains: TestParachains::default(),
        free,
        reserved: HashMap::new(),
        events: Vec::new(),
    }
}

impl Runtime {
    fn perform(&mut self) {
        for action in self.slots.take_actions() {
            match action {
                Action::DepositEvent(event) => self.events.push(event),
                Action::DepositCreating { who, amount } => {
                    *self.free.entry(who).or_insert(0) += amount;
                }
                Action::RegisterPara { id, parachain, code, initial_head_data } => {
                    let _ = self.parachains.register_para(id, parachain, code, initial_head_data);
                }
                Action::DeregisterPara { id } => {
                    let _ = self.parachains.deregister_para(id);
                }
            }
        }
    }

    fn run_to_block(&mut self, n: BlockNumber) {
        while self.slots.block_number < n {
            let next = self.slots.block_number + 1;
            self.slots.set_block_number(next);
            assert_eq!(self.slots.on_initialize(next), 0);
            self.perform();
            assert!(self.slots.is_well_formed());
        }
    }

    fn free_balance(&self, who: u64) -> Balance {
        *self.free.get(&who).unwrap_or(&0)
    }

    fn transfer(&mut self, from: u64, to: u64, amount: Balance) {
        assert!(self.free_balance(from) >= amount);
        *self.free.entry(from).or_insert(0) -= amount;
        *self.free.entry(to).or_insert(0) += amount;
    }

    fn reserved_balance(&self, who: u64) -> Balance {
        *self.reserved.get(&who).unwrap_or(&0)
    }

    fn lease_out(
        &mut self,
        para: ParaId,
        leaser: u64,
        amount: Balance,
        begin: LeasePeriod,
        count: LeasePeriod,
    ) -> Result<(), &'static str> {
        let free = &mut self.free;
        let reserved = &mut self.reserved;
        let result = self.slots.lease_out(para, leaser, amount, begin, count, |who, extra| {
            let balance = free.entry(who).or_insert(0);
            if *balance < extra {
                return Err("insufficient balance");
            }
            *balance -= extra;
            *reserved.entry(who).or_insert(0) += extra;
            Ok(())
        });
        self.perform();
        result
    }

    /// Gives a bidder what winning an auction for the lease periods `first` to `last` does.
    fn win(
        &mut self,
        who: u64,
        sub: SubId,
        para: ParaId,
        first: LeasePeriod,
        last: LeasePeriod,
        amount: Balance,
    ) {
        assert_eq!(self.slots.register(Origin::Root, para), Ok(()));
        assert_eq!(self.lease_out(para, who, amount, first, last - first + 1), Ok(()));
        let details = IncomingParachain::Unset(NewBidder { who, sub });
        self.slots.onboarding.insert(para, (first, details));
        self.slots.onboard_queue.entry(first).or_default().push(para);
        self.slots.offboarding.insert(para, who);
    }

    fn fix_deploy_data(
        &mut self,
        origin: Origin<u64>,
        sub: SubId,
        para_id: ParaId,
        code_hash: [u8; 32],
        code_size: u32,
        initial_head_data: HeadData,
    ) -> DispatchResult {
        self.slots.fix_deploy_data(
            &self.parachains,
            origin,
            sub,
            para_id,
            code_hash,
            code_size,
            initial_head_data,
        )
    }

    fn elaborate_deploy_data(
        &mut self,
        origin: Origin<u64>,
        para_id: ParaId,
        code: ValidationCode,
    ) -> DispatchResult {
        let result = self.slots.elaborate_deploy_data(origin, para_id, code);
        self.perform();
        result
    }

    fn parachain(&self, id: ParaId) -> (ValidationCode, HeadData) {
        self.parachains.parachains[&id].clone()
    }

    fn parachain_count(&self) -> usize {
        self.parachains.parachains.len()
    }
}

fn blake_two_256(data: &[u8]) -> [u8; 32] {
    <BlakeTwo256 as sp_runtime::traits::Hash>::hash(data).0
}

fn refused(error: Error) -> DispatchResult {
    Err(DispatchError::Module(error))
}

#[test]
fn offboarding_works() {
    let mut t = new_test_ext();
    t.run_to_block(1);
    t.win(1, 0, 0, 1, 4, 1);
    assert_eq!(t.free_balance(1), 9);

    t.run_to_block(9);
    assert_eq!(t.slots.deposit_held(0, &1), 1);
    assert_eq!(t.slots.deposits(0)[0], None);

    t.run_to_block(50);
    assert_eq!(t.slots.deposit_held(0, &1), 0);
    assert_eq!(t.free_balance(1), 10);
    assert!(t.slots.managed_ids().is_empty());
}

#[test]
fn set_offboarding_works() {
    let mut t = new_test_ext();
    t.run_to_block(1);
    t.win(1, 0, 0, 1, 4, 1);

    t.run_to_block(9);
    assert_eq!(t.slots.deposit_held(0, &1), 1);
    assert_eq!(t.slots.deposits(0)[0], None);

    t.run_to_block(49);
    assert_eq!(t.slots.deposit_held(0, &1), 1);
    t.slots.offboarding.insert(0, 10);

    t.run_to_block(50);
    assert_eq!(t.slots.deposit_held(0, &1), 0);
    assert_eq!(t.free_balance(10), 1);
    assert_eq!(t.free_balance(1), 9);
}

#[test]
fn can_win_incomplete_auction() {
    let mut t = new_test_ext();
    t.run_to_block(1);
    t.win(1, 0, 0, 4, 4, 5);

    t.run_to_block(9);
    assert_eq!(t.slots.onboard_queue.get(&1), None);
    assert_eq!(t.slots.onboard_queue.get(&2), None);
    assert_eq!(t.slots.onboard_queue.get(&3), None);
    assert_eq!(t.slots.onboard_queue[&4], vec![0]);
    assert_eq!(
        t.slots.onboarding[&0],
        (4, IncomingParachain::Unset(NewBidder { who: 1, sub: 0 }))
    );
    assert_eq!(t.slots.deposit_held(0, &1), 5);
    assert_eq!(t.slots.deposits(0), vec![None, None, None, None, Some((1, 5))]);
}

#[test]
fn onboarding_works() {
    let mut t = new_test_ext();
    t.run_to_block(1);
    t.win(1, 0, 0, 1, 4, 1);

    t.run_to_block(9);
    let h = blake_two_256(&[42u8][..]);
    assert_eq!(t.fix_deploy_data(Origin::Signed(1), 0, 0, h, 1, vec![69].into()), Ok(()));
    assert_eq!(t.elaborate_deploy_data(Origin::Signed(0), 0, vec![42].into()), Ok(()));
    assert_eq!(t.parachain_count(), 0);

    t.run_to_block(10);
    assert_eq!(t.parachain_count(), 1);
    assert_eq!(t.parachain(0), (vec![42].into(), vec![69].into()));
    assert!(!t.slots.onboarding.contains_key(&0));
    assert!(!t.slots.onboard_queue.contains_key(&1));
}

#[test]
fn late_onboarding_works() {
    let mut t = new_test_ext();
    t.run_to_block(1);
    t.win(1, 0, 0, 1, 4, 1);

    t.run_to_block(10);
    assert_eq!(t.parachain_count(), 0);

    t.run_to_block(11);
    let h = blake_two_256(&[42u8][..]);
    assert_eq!(t.fix_deploy_data(Origin::Signed(1), 0, 0, h, 1, vec![69].into()), Ok(()));
    assert_eq!(t.elaborate_deploy_data(Origin::Signed(0), 0, vec![42].into()), Ok(()));
    assert_eq!(t.parachain_count(), 1);
    assert_eq!(t.parachain(0), (vec![42].into(), vec![69].into()));
}

#[test]
fn multiple_onboards_offboards_should_work() {
    let mut t = new_test_ext();
    t.run_to_block(1);
    t.win(1, 0, 0, 1, 1, 1);
    t.win(2, 0, 1, 2, 3, 1);
    t.win(3, 0, 2, 4, 4, 1);

    t.run_to_block(5);
    t.win(4, 1, 3, 1, 2, 1);
    t.win(5, 1, 4, 3, 4, 1);

    t.run_to_block(9);
    assert_eq!(t.slots.onboard_queue[&1], vec![0, 3]);
    assert_eq!(
        t.slots.onboarding[&0],
        (1, IncomingParachain::Unset(NewBidder { who: 1, sub: 0 }))
    );
    assert_eq!(
        t.slots.onboarding[&3],
        (1, IncomingParachain::Unset(NewBidder { who: 4, sub: 1 }))
    );
    assert_eq!(t.slots.onboard_queue[&2], vec![1]);
    assert_eq!(
        t.slots.onboarding[&1],
        (2, IncomingParachain::Unset(NewBidder { who: 2, sub: 0 }))
    );
    assert_eq!(t.slots.onboard_queue[&3], vec![4]);
    assert_eq!(
        t.slots.onboarding[&4],
        (3, IncomingParachain::Unset(NewBidder { who: 5, sub: 1 }))
    );
    assert_eq!(t.slots.onboard_queue[&4], vec![2]);
    assert_eq!(
        t.slots.onboarding[&2],
        (4, IncomingParachain::Unset(NewBidder { who: 3, sub: 0 }))
    );

    for &(para, sub, acc) in &[(0u32, 0u32, 1u8), (1, 0, 2), (2, 0, 3), (3, 1, 4), (4, 1, 5)] {
        let h = blake_two_256(&[acc][..]);
        let origin = Origin::Signed(acc as u64);
        assert_eq!(t.fix_deploy_data(origin, sub, para, h, 1, vec![acc].into()), Ok(()));
        assert_eq!(t.elaborate_deploy_data(Origin::Signed(0), para, vec![acc].into()), Ok(()));
    }

    t.run_to_block(10);
    assert_eq!(t.parachain_count(), 2);
    assert_eq!(t.parachain(0), (vec![1].into(), vec![1].into()));
    assert_eq!(t.parachain(3), (vec![4].into(), vec![4].into()));
    t.run_to_block(20);
    assert_eq!(t.parachain_count(), 2);
    assert_eq!(t.parachain(1), (vec![2].into(), vec![2].into()));
    assert_eq!(t.parachain(3), (vec![4].into(), vec![4].into()));
    t.run_to_block(30);
    assert_eq!(t.parachain_count(), 2);
    assert_eq!(t.parachain(1), (vec![2].into(), vec![2].into()));
    assert_eq!(t.parachain(4), (vec![5].into(), vec![5].into()));
    t.run_to_block(40);
    assert_eq!(t.parachain_count(), 2);
    assert_eq!(t.parachain(2), (vec![3].into(), vec![3].into()));
    assert_eq!(t.parachain(4), (vec![5].into(), vec![5].into()));
    t.run_to_block(50);
    assert_eq!(t.parachain_count(), 0);
}

#[test]
fn deploy_code_too_large() {
    let mut t = new_test_ext();
    t.run_to_block(1);
    t.win(1, 0, 0, 1, 1, 5);

    t.run_to_block(9);
    assert_eq!(t.slots.onboard_queue[&1], vec![0]);

    t.run_to_block(10);

    let code = vec![0u8; (MAX_CODE_SIZE + 1) as usize];
    let h = blake_two_256(&code[..]);
    assert_eq!(
        t.fix_deploy_data(Origin::Signed(1), 0, 0, h, code.len() as u32, vec![1].into()),
        refused(Error::CodeTooLarge),
    );
}

#[test]
fn deploy_maximum_ok() {
    let mut t = new_test_ext();
    t.run_to_block(1);
    t.win(1, 0, 0, 1, 1, 5);

    t.run_to_block(9);
    assert_eq!(t.slots.onboard_queue[&1], vec![0]);

    t.run_to_block(10);

    let code = vec![0u8; MAX_CODE_SIZE as usize];
    let head_data = vec![1u8; MAX_HEAD_DATA_SIZE as usize].into();
    let h = blake_two_256(&code[..]);
    assert_eq!(
        t.fix_deploy_data(Origin::Signed(1), 0, 0, h, code.len() as u32, head_data),
        Ok(()),
    );
}

#[test]
fn deploy_head_data_too_large() {
    let mut t = new_test_ext();
    t.run_to_block(1);
    t.win(1, 0, 0, 1, 1, 5);

    t.run_to_block(9);
    assert_eq!(t.slots.onboard_queue[&1], vec![0]);

    t.run_to_block(10);

    let code = vec![0u8; MAX_CODE_SIZE as usize];
    let head_data = vec![1u8; (MAX_HEAD_DATA_SIZE + 1) as usize].into();
    let h = blake_two_256(&code[..]);
    assert_eq!(
        t.fix_deploy_data(Origin::Signed(1), 0, 0, h, code.len() as u32, head_data),
        refused(Error::HeadDataTooLarge),
    );
}

#[test]
fn code_size_must_be_correct() {
    let mut t = new_test_ext();
    t.run_to_block(1);
    t.win(1, 0, 0, 1, 1, 5);

    t.run_to_block(9);
    assert_eq!(t.slots.onboard_queue[&1], vec![0]);

    t.run_to_block(10);

    let code = vec![0u8; MAX_CODE_SIZE as usize];
    let head_data = vec![1u8; MAX_HEAD_DATA_SIZE as usize].into();
    let h = blake_two_256(&code[..]);
    assert_eq!(
        t.fix_deploy_data(Origin::Signed(1), 0, 0, h, (code.len() - 1) as u32, head_data),
        Ok(()),
    );
    assert!(t.elaborate_deploy_data(Origin::Signed(0), 0, code.into()).is_err());
}

#[test]
fn code_must_be_the_preimage() {
    let mut t = new_test_ext();
    t.run_to_block(1);
    t.win(1, 0, 0, 1, 1, 5);
    let h = blake_two_256(&[42u8][..]);
    assert_eq!(t.fix_deploy_data(Origin::Signed(1), 0, 0, h, 1, vec![69].into()), Ok(()));
    let before = t.slots.onboarding[&0].clone();
    assert_eq!(
        t.elaborate_deploy_data(Origin::Signed(0), 0, vec![43].into()),
        refused(Error::InvalidCode),
    );
    assert_eq!(t.slots.onboarding[&0], before);
}

#[test]
fn the_hash_is_blake_two() {
    let hash_of_nothing: [u8; 32] = [
        0x0e, 0x57, 0x51, 0xc0, 0x26, 0xe5, 0x43, 0xb2, 0xe8, 0xab, 0x2e, 0xb0, 0x60, 0x99, 0xda,
        0xa1, 0xd1, 0xe5, 0xdf, 0x47, 0x77, 0x8f, 0x77, 0x87, 0xfa, 0xab, 0x45, 0xcd, 0xf1, 0x2f,
        0xe3, 0xa8,
    ];
    let mut t = new_test_ext();
    t.win(1, 0, 0, 1, 1, 5);
    assert_eq!(
        t.fix_deploy_data(Origin::Signed(1), 0, 0, hash_of_nothing, 0, vec![].into()),
        Ok(()),
    );
    assert_eq!(t.elaborate_deploy_data(Origin::Unsigned, 0, vec![].into()), Ok(()));
}

#[test]
fn fixing_deploy_data_is_for_the_bidder_alone() {
    let mut t = new_test_ext();
    let h = [7u8; 32];
    assert_eq!(
        t.fix_deploy_data(Origin::Root, 0, 0, h, 1, vec![69].into()),
        Err(DispatchError::BadOrigin),
    );
    assert_eq!(
        t.fix_deploy_data(Origin::Signed(1), 0, 0, h, 1, vec![69].into()),
        refused(Error::ParaNotOnboarding),
    );
    t.win(1, 3, 0, 1, 1, 5);
    assert_eq!(
        t.fix_deploy_data(Origin::Unsigned, 3, 0, h, 1, vec![69].into()),
        Err(DispatchError::BadOrigin),
    );
    assert_eq!(
        t.fix_deploy_data(Origin::Signed(2), 3, 0, h, 1, vec![69].into()),
        refused(Error::InvalidOrigin),
    );
    assert_eq!(
        t.fix_deploy_data(Origin::Signed(1), 0, 0, h, 1, vec![69].into()),
        refused(Error::InvalidOrigin),
    );
    assert_eq!(t.fix_deploy_data(Origin::Signed(1), 3, 0, h, 1, vec![69].into()), Ok(()));
    assert_eq!(
        t.slots.onboarding[&0],
        (
            1,
            IncomingParachain::Fixed {
                code_hash: h,
                code_size: 1,
                initial_head_data: vec![69].into()
            }
        ),
    );
}

#[test]
fn deploy_data_is_set_once() {
    let mut t = new_test_ext();
    assert_eq!(
        t.elaborate_deploy_data(Origin::Signed(0), 0, vec![42].into()),
        refused(Error::ParaNotOnboarding),
    );
    t.win(1, 0, 0, 1, 1, 5);
    assert_eq!(
        t.elaborate_deploy_data(Origin::Signed(0), 0, vec![42].into()),
        refused(Error::UnsetDeployData),
    );
    let h = blake_two_256(&[42u8][..]);
    assert_eq!(t.fix_deploy_data(Origin::Signed(1), 0, 0, h, 1, vec![69].into()), Ok(()));
    assert_eq!(
        t.fix_deploy_data(Origin::Signed(1), 0, 0, h, 1, vec![69].into()),
        refused(Error::AlreadyRegistered),
    );
    assert_eq!(t.elaborate_deploy_data(Origin::Signed(0), 0, vec![42].into()), Ok(()));
    assert_eq!(
        t.elaborate_deploy_data(Origin::Signed(0), 0, vec![42].into()),
        refused(Error::UnsetDeployData),
    );
    assert_eq!(
        t.fix_deploy_data(Origin::Signed(1), 0, 0, h, 1, vec![69].into()),
        refused(Error::AlreadyRegistered),
    );
}

#[test]
fn basic_setup_works() {
    let mut t = new_test_ext();
    assert_eq!(t.slots.deposit_held(0, &1), 0);
    t.run_to_block(10);
    assert_eq!(t.slots.deposit_held(0, &1), 0);
    assert_eq!(t.slots.deposits(0), vec![]);
    assert_eq!(t.events, vec![Event::NewLeasePeriod(1)]);
}

#[test]
fn a_lease_period_begins_at_each_multiple() {
    let mut t = new_test_ext();
    assert_eq!(t.slots.lease_period(), 10);
    t.run_to_block(9);
    assert_eq!(t.slots.lease_period_index(), 0);
    assert_eq!(t.events, vec![]);
    t.run_to_block(35);
    assert_eq!(t.slots.lease_period_index(), 3);
    assert_eq!(
        t.events,
        vec![Event::NewLeasePeriod(1), Event::NewLeasePeriod(2), Event::NewLeasePeriod(3)],
    );
}

#[test]
fn extensions_should_work() {
    let mut t = new_test_ext();
    t.run_to_block(1);
    t.win(1, 0, 0, 1, 1, 1);

    t.run_to_block(9);
    assert_eq!(t.slots.onboard_queue[&1], vec![0]);

    t.run_to_block(10);
    let h = blake_two_256(&[1u8][..]);
    assert_eq!(t.fix_deploy_data(Origin::Signed(1), 0, 0, h, 1, vec![1].into()), Ok(()));
    assert_eq!(t.elaborate_deploy_data(Origin::Signed(0), 0, vec![1].into()), Ok(()));

    assert_eq!(t.lease_out(0, 1, 1, 2, 1), Ok(()));

    assert_eq!(t.parachain_count(), 1);
    assert_eq!(t.parachain(0), (vec![1].into(), vec![1].into()));

    t.run_to_block(20);
    assert_eq!(t.parachain_count(), 1);
    assert_eq!(t.parachain(0), (vec![1].into(), vec![1].into()));
    t.transfer(1, ACCOUNT_OF_PARA_0, 1);
    assert_eq!(t.lease_out(0, 1, 2, 3, 1), Ok(()));

    t.run_to_block(30);
    assert_eq!(t.parachain_count(), 1);
    assert_eq!(t.parachain(0), (vec![1].into(), vec![1].into()));

    t.run_to_block(40);
    assert_eq!(t.parachain_count(), 0);
}

#[test]
fn a_cheaper_extension_gives_a_rebate() {
    let mut t = new_test_ext();
    t.run_to_block(1);
    t.win(1, 0, 0, 1, 1, 5);
    assert_eq!(t.reserved_balance(1), 5);

    t.run_to_block(10);
    assert_eq!(t.lease_out(0, 1, 3, 2, 1), Ok(()));
    // More than that is held already.
    assert_eq!(t.reserved_balance(1), 5);
    assert_eq!(t.slots.deposits(0), vec![Some((1, 5)), Some((1, 3))]);

    t.run_to_block(20);
    assert_eq!(t.free_balance(ACCOUNT_OF_PARA_0), 2);
    assert_eq!(t.slots.deposit_held(0, &1), 3);

    // The chain was never commissioned, so that it is not deregistered either.
    t.run_to_block(30);
    assert_eq!(t.free_balance(1), 8);
    assert_eq!(t.free_balance(ACCOUNT_OF_PARA_0), 2);
    assert_eq!(t.slots.deposits(0), vec![]);
    assert!(t.slots.onboarding.is_empty());
    assert!(t.slots.offboarding.is_empty());
}

#[test]
fn all_that_was_locked_comes_back() {
    let mut t = new_test_ext();
    assert_eq!(t.slots.register(Origin::Root, 7), Ok(()));
    t.slots.onboarding.insert(7, (1, IncomingParachain::Unset(NewBidder { who: 2, sub: 0 })));
    for (begin, amount) in [(1, 3), (2, 8), (3, 8), (4, 5), (5, 1)] {
        assert_eq!(t.lease_out(7, 2, amount, begin, 1), Ok(()));
    }
    assert_eq!(t.slots.deposit_held(7, &2), 8);
    assert_eq!(t.reserved_balance(2), 8);
    let total = |t: &Runtime| t.free.values().sum::<Balance>();
    let before = total(&t);
    let mut returned = Vec::new();
    for period in 1..=6 {
        t.run_to_block(period * LEASE_PERIOD);
        returned.push(total(&t) - before);
    }
    assert_eq!(returned, vec![0, 0, 0, 3, 7, 8]);
    // No off-boarding account was ever set.
    assert_eq!(t.free_balance(0), 1);
}

#[test]
fn a_lease_reserves_what_is_lacking() {
    let mut t = new_test_ext();
    assert_eq!(t.lease_out(0, 1, 4, 2, 2), Ok(()));
    assert_eq!(t.free_balance(1), 6);
    assert_eq!(t.slots.deposits(0), vec![None, None, Some((1, 4)), Some((1, 4))]);
    assert_eq!(t.slots.leased[&2], vec![0]);
    assert_eq!(t.slots.leased[&3], vec![0]);
    assert!(!t.slots.leased.contains_key(&1));
    assert!(!t.slots.leased.contains_key(&4));

    assert_eq!(t.slots.additional_deposit(0, &1, 9), Some(5));
    assert_eq!(t.slots.additional_deposit(0, &1, 3), None);
    assert_eq!(t.slots.additional_deposit(0, &2, 3), Some(3));
    assert_eq!(t.lease_out(0, 1, 9, 0, 2), Ok(()));
    assert_eq!(t.free_balance(1), 1);
    assert_eq!(
        t.slots.deposits(0),
        vec![Some((1, 9)), Some((1, 9)), Some((1, 4)), Some((1, 4))],
    );
    let range = |period_begin, period_count| LeaseRange { period_begin, period_count };
    assert_eq!(
        t.events,
        vec![
            Event::WonRenewal(0, range(2, 2), 4, 4),
            Event::WonRenewal(0, range(0, 2), 5, 9),
        ],
    );
}

#[test]
fn a_lease_that_cannot_be_reserved_fails() {
    let mut t = new_test_ext();
    assert_eq!(t.lease_out(0, 1, 11, 1, 1), Err("insufficient balance"));
    assert_eq!(t.free_balance(1), 10);
    assert_eq!(t.slots.deposits(0), vec![]);
    assert!(t.slots.leased.is_empty());
    assert_eq!(t.events, vec![]);
}

#[test]
fn a_period_that_is_leased_twice_stays_as_it_was() {
    let mut t = new_test_ext();
    assert_eq!(t.lease_out(0, 1, 4, 1, 2), Ok(()));
    assert_eq!(t.lease_out(0, 2, 6, 0, 4), Ok(()));
    assert_eq!(
        t.slots.deposits(0),
        vec![Some((2, 6)), Some((1, 4)), Some((1, 4)), Some((2, 6))],
    );
    assert_eq!(t.slots.deposit_held(0, &1), 4);
    assert_eq!(t.slots.deposit_held(0, &2), 6);
    assert_eq!(t.slots.leased[&1], vec![0, 0]);
}

#[test]
fn a_lease_in_the_past_deposits_nothing() {
    let mut t = new_test_ext();
    t.run_to_block(20);
    assert_eq!(t.lease_out(0, 1, 4, 1, 3), Ok(()));
    assert_eq!(t.slots.deposits(0), vec![]);
    assert_eq!(t.slots.leased[&3], vec![0]);
    assert_eq!(t.reserved_balance(1), 4);
}

#[test]
fn an_empty_lease_pads_the_deposits() {
    let mut t = new_test_ext();
    assert_eq!(t.lease_out(0, 1, 4, 2, 0), Ok(()));
    assert_eq!(t.slots.deposits(0), vec![None, None]);
    assert!(t.slots.leased.is_empty());
}

#[test]
fn the_reply_decides_about_a_lease() {
    let mut slots: Module<u64> = Module::new(LEASE_PERIOD);
    assert_eq!(slots.lease_out_given(0, 1, 4, 1, 1, Err("no")), Err("no"));
    assert_eq!(slots.deposits(0), vec![]);
    assert_eq!(slots.lease_out_given::<&str>(0, 1, 4, 1, 1, Ok(())), Ok(()));
    assert_eq!(slots.deposits(0), vec![None, Some((1, 4))]);
    // Nothing is lacking, so that there is no reply to look at.
    assert_eq!(slots.lease_out_given(0, 1, 3, 2, 1, Err("no")), Ok(()));
    assert_eq!(slots.deposits(0), vec![None, Some((1, 4)), Some((1, 3))]);
}

#[test]
fn the_registrar_decides_about_sizes() {
    let mut slots: Module<u64> = Module::new(LEASE_PERIOD);
    slots.onboarding.insert(0, (1, IncomingParachain::Unset(NewBidder { who: 1, sub: 0 })));
    let mut fix = |head_data_allowed: bool, code_allowed: bool| {
        let h = [0u8; 32];
        slots.fix_deploy_data_given(
            Origin::Signed(1),
            0,
            0,
            h,
            1,
            vec![1].into(),
            head_data_allowed,
            code_allowed,
        )
    };
    assert_eq!(fix(false, false), refused(Error::HeadDataTooLarge));
    assert_eq!(fix(true, false), refused(Error::CodeTooLarge));
    assert_eq!(fix(true, true), Ok(()));
}

#[test]
fn the_hash_decides_about_code() {
    let mut slots: Module<u64> = Module::new(LEASE_PERIOD);
    let h = [9u8; 32];
    let fixed = IncomingParachain::Fixed {
        code_hash: h,
        code_size: 1,
        initial_head_data: vec![5].into(),
    };
    slots.onboarding.insert(0, (0, fixed));
    let mut almost = h;
    almost[31] = 8;
    assert_eq!(
        slots.elaborate_deploy_data_given(0, vec![1].into(), almost),
        refused(Error::InvalidCode),
    );
    assert_eq!(slots.elaborate_deploy_data_given(0, vec![1].into(), h), Ok(()));
    assert_eq!(
        slots.take_actions(),
        vec![Action::RegisterPara {
            id: 0,
            parachain: true,
            code: vec![1].into(),
            initial_head_data: vec![5].into(),
        }],
    );
    assert_eq!(slots.take_actions(), vec![]);
}

#[test]
fn managed_ids_stay_in_order() {
    let mut slots: Module<u64> = Module::new(LEASE_PERIOD);
    for id in [5, 1, 9, 5, 7, 1] {
        assert_eq!(slots.register(Origin::Signed(3), id), Ok(()));
    }
    assert_eq!(slots.managed_ids(), &vec![1, 5, 7, 9]);
    assert_eq!(slots.unregister(Origin::Signed(3), 5), Ok(()));
    assert_eq!(slots.managed_ids(), &vec![1, 5, 7, 9]);
    assert!(slots.is_well_formed());
    slots.managed_ids.push(9);
    assert!(!slots.is_well_formed());
    slots.managed_ids.pop();
    slots.lease_period = 0;
    assert!(!slots.is_well_formed());
}

#[test]
fn managed_paras_without_deposits_are_let_go() {
    let mut t = new_test_ext();
    t.win(1, 0, 3, 1, 2, 1);
    assert_eq!(t.slots.register(Origin::Root, 8), Ok(()));
    t.run_to_block(10);
    assert_eq!(t.slots.managed_ids(), &vec![3]);
}

#[test]
fn a_queued_para_is_registered_once() {
    let mut t = new_test_ext();
    let details =
        IncomingParachain::Deploy { code: vec![4].into(), initial_head_data: vec![2].into() };
    t.slots.onboarding.insert(6, (1, details));
    t.slots.onboard_queue.insert(1, vec![6, 5, 6]);
    t.run_to_block(10);
    assert_eq!(t.parachain_count(), 1);
    assert_eq!(t.parachain(6), (vec![4].into(), vec![2].into()));
}

#[test]
fn a_swap_exchanges_leases_and_undoes_itself() {
    let mut t = new_test_ext();
    assert_eq!(t.slots.register(Origin::Root, 4), Ok(()));
    assert_eq!(t.slots.register(Origin::Root, 6), Ok(()));
    assert_eq!(t.lease_out(4, 1, 2, 1, 1), Ok(()));
    assert_eq!(t.lease_out(6, 2, 5, 0, 1), Ok(()));
    t.slots.offboarding.insert(4, 3);

    assert_eq!(t.lease_out(6, 2, 5, 1, 1), Ok(()));
    assert_eq!(t.slots.leased[&0], vec![6]);
    assert_eq!(t.slots.leased[&1], vec![4, 6]);

    assert_eq!(t.slots.ensure_can_swap(4, 9), Ok(()));
    assert_eq!(t.slots.on_swap(4, 9), Ok(()));
    assert_eq!(t.slots.leased[&0], vec![6]);
    assert_eq!(t.slots.leased[&1], vec![9, 6]);
    assert_eq!(t.slots.leased.len(), 2);
    assert_eq!(t.slots.managed_ids(), &vec![6, 9]);
    assert_eq!(t.slots.deposits(4), vec![]);
    assert_eq!(t.slots.deposits(9), vec![None, Some((1, 2))]);
    assert_eq!(t.slots.deposits(6), vec![Some((2, 5)), Some((2, 5))]);
    assert_eq!(t.slots.offboarding.get(&9), Some(&3));
    assert_eq!(t.slots.offboarding.get(&4), None);

    assert_eq!(t.slots.on_swap(4, 9), Ok(()));
    assert_eq!(t.slots.managed_ids(), &vec![4, 6]);
    assert_eq!(t.slots.deposits(4), vec![None, Some((1, 2))]);
    assert_eq!(t.slots.deposits(9), vec![]);
    assert_eq!(t.slots.offboarding.get(&4), Some(&3));
    assert_eq!(t.slots.leased[&1], vec![4, 6]);

    // Both are managed, so that the list of managed IDs stays as it is.
    assert_eq!(t.slots.on_swap(6, 4), Ok(()));
    assert_eq!(t.slots.managed_ids(), &vec![4, 6]);
    assert_eq!(t.slots.deposits(4), vec![Some((2, 5)), Some((2, 5))]);
    assert_eq!(t.slots.leased[&0], vec![4]);
    assert_eq!(t.slots.leased[&1], vec![6, 4]);
    assert_eq!(t.slots.on_swap(6, 6), Ok(()));
    assert_eq!(t.slots.leased[&1], vec![6, 4]);
    assert_eq!(t.slots.deposits(6), vec![None, Some((1, 2))]);
}

#[test]
fn an_undeployed_parachain_cannot_be_swapped() {
    let mut t = new_test_ext();
    t.win(1, 0, 0, 1, 1, 1);
    assert_eq!(t.slots.ensure_can_swap(0, 1), Err("can't swap an undeployed parachain"));
    assert_eq!(t.slots.ensure_can_swap(1, 0), Err("can't swap an undeployed parachain"));
    assert_eq!(t.slots.ensure_can_swap(1, 2), Ok(()));
}

#[test]
fn ids_come_from_the_registrar() {
    let mut registrar = TestParachains::default();
    assert_eq!(registrar.new_id(), 0);
    assert_eq!(registrar.new_id(), 1);
}

/// A registrar that counts how often it is asked about sizes.
#[derive(Default)]
struct CountingRegistrar {
    head_data: std::cell::Cell<u32>,
    code: std::cell::Cell<u32>,
}

impl Registrar<u64> for CountingRegistrar {
    fn new_id(&mut self) -> ParaId {
        0
    }

    fn head_data_size_allowed(&self, head_data_size: u32) -> bool {
        self.head_data.set(self.head_data.get() + 1);
        head_data_size <= MAX_HEAD_DATA_SIZE
    }

    fn code_size_allowed(&self, code_size: u32) -> bool {
        self.code.set(self.code.get() + 1);
        code_size <= MAX_CODE_SIZE
    }

    fn register_para(&mut self, _: ParaId, _: bool, _: ValidationCode, _: HeadData) -> DispatchResult {
        Ok(())
    }

    fn deregister_para(&mut self, _: ParaId) -> DispatchResult {
        Ok(())
    }
}

#[test]
fn the_registrar_is_asked_in_turn() {
    let mut ext = new_test_ext();
    ext.win(1, 0, 0, 1, 1, 1);
    let registrar = CountingRegistrar::default();
    let hash = blake_two_256(&[7]);
    let mut fix = |who: u64, head: usize, code_size: u32| {
        let head_data = HeadData(vec![1; head]);
        let origin = Origin::Signed(who);
        ext.slots.fix_deploy_data(&registrar, origin, 0, 0, hash, code_size, head_data)
    };
    assert_eq!(fix(2, 1, 1), refused(Error::InvalidOrigin));
    assert_eq!((registrar.head_data.get(), registrar.code.get()), (0, 0));
    assert_eq!(fix(1, 11, 101), refused(Error::HeadDataTooLarge));
    assert_eq!((registrar.head_data.get(), registrar.code.get()), (1, 0));
    assert_eq!(fix(1, 10, 101), refused(Error::CodeTooLarge));
    assert_eq!((registrar.head_data.get(), registrar.code.get()), (2, 1));
    assert_eq!(fix(1, 10, 100), Ok(()));
    assert_eq!((registrar.head_data.get(), registrar.code.get()), (3, 2));
}

#[test]
fn a_para_is_registered_only_once() {
    let mut ext = new_test_ext();
    assert_eq!(ext.lease_out(3, 1, 4, 0, 2), Ok(()));
    assert_eq!(ext.slots.register(Origin::Signed(1), 3), Ok(()));
    assert_eq!(ext.slots.register(Origin::Signed(2), 3), Ok(()));
    assert_eq!(ext.slots.managed_ids(), &vec![3]);
    assert_eq!(ext.slots.deposits(3), vec![Some((1, 4)), Some((1, 4))]);
    assert_eq!(ext.slots.deposit_held(3, &1), 4);
}

#[test]
fn leases_run_out_one_by_one() {
    let mut ext = new_test_ext();
    assert_eq!(ext.slots.register(Origin::Root, 5), Ok(()));
    assert_eq!(ext.lease_out(5, 1, 2, 1, 2), Ok(()));
    ext.slots.onboarding.insert(5, (1, IncomingParachain::Unset(NewBidder { who: 1, sub: 0 })));
    ext.slots.offboarding.insert(5, 1);
    assert_eq!(ext.slots.deposits(5), vec![None, Some((1, 2)), Some((1, 2))]);
    ext.run_to_block(10);
    assert_eq!(ext.slots.deposits(5), vec![Some((1, 2)), Some((1, 2))]);
    ext.run_to_block(20);
    assert_eq!(ext.slots.deposits(5), vec![Some((1, 2))]);
    assert_eq!(ext.slots.managed_ids(), &vec![5]);
    ext.run_to_block(30);
    assert_eq!(ext.slots.deposits(5), vec![]);
    assert!(ext.slots.managed_ids().is_empty());
    assert_eq!(ext.free_balance(1), 10);
}

#[test]
fn nothing_is_reserved_where_enough_is_held() {
    let mut slots: Module<u64> = Module::new(LEASE_PERIOD);
    let mut asked: Vec<(u64, Balance)> = Vec::new();
    for (amount, begin) in [(5, 0), (3, 1), (5, 2), (7, 3)] {
        let result: Result<(), ()> = slots.lease_out(4, 1, amount, begin, 1, |who, extra| {
            asked.push((who, extra));
            Ok(())
        });
        assert_eq!(result, Ok(()));
    }
    assert_eq!(asked, vec![(1, 5), (1, 0), (1, 2)]);
    assert_eq!(slots.deposit_held(4, &1), 7);
}

#[test]
fn two_leases_can_be_granted_in_any_order() {
    for (other, reserved) in [(1, (5, 0)), (2, (5, 3))] {
        let mut one_first = new_test_ext();
        assert_eq!(one_first.lease_out(4, 1, 5, 1, 2), Ok(()));
        assert_eq!(one_first.lease_out(4, other, 3, 4, 1), Ok(()));
        let mut other_first = new_test_ext();
        assert_eq!(other_first.lease_out(4, other, 3, 4, 1), Ok(()));
        assert_eq!(other_first.lease_out(4, 1, 5, 1, 2), Ok(()));
        assert_eq!(one_first.slots.deposits(4), other_first.slots.deposits(4));
        assert_eq!(one_first.slots.leased, other_first.slots.leased);
        for t in [&one_first, &other_first] {
            assert_eq!((t.reserved_balance(1), t.reserved_balance(2)), reserved);
        }
    }
}

#[test]
fn a_para_waits_for_its_lease_over_several_periods() {
    let mut t = new_test_ext();
    t.win(1, 0, 0, 3, 3, 1);
    let h = blake_two_256(&[42u8][..]);
    assert_eq!(t.fix_deploy_data(Origin::Signed(1), 0, 0, h, 1, vec![69].into()), Ok(()));
    assert_eq!(t.elaborate_deploy_data(Origin::Signed(0), 0, vec![42].into()), Ok(()));
    t.run_to_block(29);
    assert_eq!(t.parachain_count(), 0);
    assert!(t.slots.onboarding.contains_key(&0));
    t.run_to_block(30);
    assert_eq!(t.parachain(0), (vec![42].into(), vec![69].into()));
    assert!(!t.slots.onboarding.contains_key(&0));
    t.run_to_block(60);
    assert_eq!(t.parachain_count(), 0);
    assert!(t.slots.managed_ids().is_empty());
    assert_eq!(t.slots.deposits(0), vec![]);
}
