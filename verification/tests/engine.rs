use evm_journal::{
    Account, AccountInfo, Address, Bytecode, Database, EmptyDatabase, Hash32, JournalEntry,
    JournaledState, Log, Oracle, SelfDestructResult, StorageSlot, TransferError, U256,
};

fn addr(n: u64) -> Address {
    Address::from_low_u64(n)
}

fn num(n: u64) -> U256 {
    U256::from_u64(n)
}

fn max() -> U256 {
    U256 { w0: u64::MAX, w1: u64::MAX, w2: u64::MAX, w3: u64::MAX }
}

fn funded(balance: U256) -> Account {
    Account::from(AccountInfo {
        balance,
        nonce: 0,
        code_hash: Hash32::keccak_empty(),
        code: None,
    })
}

fn entries(engine: &JournaledState) -> usize {
    engine.journal.iter().map(|frame| frame.len()).sum()
}

/// A database with one funded account, one code and one storage cell.
struct SmallDatabase {
    rich: Address,
    code_hash: Hash32,
}

impl Database for SmallDatabase {
    fn oracle(&self) -> Oracle {
        unreachable!()
    }

    fn basic(&mut self, address: Address) -> AccountInfo {
        if address == self.rich {
            AccountInfo { balance: num(1000), nonce: 5, code_hash: self.code_hash, code: None }
        } else {
            AccountInfo::default()
        }
    }

    fn code_by_hash(&mut self, code_hash: Hash32) -> Bytecode {
        if code_hash == self.code_hash {
            Bytecode::new_raw(vec![0x60, 0x00], code_hash)
        } else {
            Bytecode::new()
        }
    }

    fn storage(&mut self, address: Address, index: U256) -> U256 {
        if address == self.rich && index == num(1) {
            num(77)
        } else {
            U256::zero()
        }
    }
}

fn small_database() -> SmallDatabase {
    SmallDatabase { rich: addr(0x51), code_hash: Hash32 { hi: 1, lo: 2 } }
}

#[test]
fn new_engine_is_empty() {
    let engine = JournaledState::new();
    assert_eq!(engine.depth(), 0);
    assert_eq!(engine.journal.len(), 1);
    assert!(engine.journal[0].is_empty());
    assert!(engine.logs.is_empty());
    assert!(engine.state.keys().is_empty());
    let other = JournaledState::default();
    assert_eq!(other.journal.len(), 1);
}

#[test]
fn cold_then_warm() {
    let mut db = EmptyDatabase {};
    let mut engine = JournaledState::new();
    assert!(engine.load_account(addr(0xaa), &mut db));
    assert!(!engine.load_account(addr(0xaa), &mut db));
    let checkpoint = engine.checkpoint();
    assert!(engine.load_account(addr(0xbb), &mut db));
    assert!(engine.can_revert(&checkpoint));
    engine.checkpoint_revert(checkpoint);
    assert!(!engine.state.contains_key(&addr(0xbb)));
    assert!(engine.state.contains_key(&addr(0xaa)));
    assert!(engine.load_account(addr(0xbb), &mut db));
}

#[test]
fn load_account_journals_the_load() {
    let mut db = small_database();
    let mut engine = JournaledState::new();
    assert!(engine.load_account(addr(0x51), &mut db));
    assert_eq!(engine.journal[0].len(), 1);
    assert!(matches!(
        engine.journal[0][0],
        JournalEntry::AccountLoaded { address } if address == addr(0x51)
    ));
    let account = engine.account(addr(0x51));
    assert_eq!(account.info.balance, num(1000));
    assert_eq!(account.info.nonce, 5);
    assert!(account.info.code.is_none());
    assert!(!account.is_touched);
    assert!(!account.is_destroyed);
    assert!(!account.storage_cleared);
    assert!(!account.is_existing_precompile);
}

#[test]
fn transfer_then_revert() {
    let mut db = EmptyDatabase {};
    let mut engine = JournaledState::new();
    engine.state().insert(addr(0xa), funded(num(100)));
    engine.state().insert(addr(0xb), funded(num(0)));
    let checkpoint = engine.checkpoint();
    assert_eq!(engine.transfer(&addr(0xa), &addr(0xb), num(30), &mut db), Ok((false, false)));
    assert_eq!(engine.account(addr(0xa)).info.balance, num(70));
    assert_eq!(engine.account(addr(0xb)).info.balance, num(30));
    assert!(engine.account(addr(0xa)).is_touched);
    assert!(engine.account(addr(0xb)).is_touched);
    engine.checkpoint_revert(checkpoint);
    assert_eq!(engine.account(addr(0xa)).info.balance, num(100));
    assert_eq!(engine.account(addr(0xb)).info.balance, num(0));
    assert!(!engine.account(addr(0xa)).is_touched);
    assert!(!engine.account(addr(0xb)).is_touched);
    assert_eq!(engine.depth(), 0);
    assert_eq!(engine.journal.len(), 1);
}

#[test]
fn transfer_conserves_the_sum() {
    let mut db = small_database();
    let mut engine = JournaledState::new();
    engine.state().insert(addr(0xb), funded(num(8)));
    assert_eq!(engine.transfer(&addr(0x51), &addr(0xb), num(250), &mut db), Ok((true, false)));
    assert_eq!(engine.account(addr(0x51)).info.balance, num(750));
    assert_eq!(engine.account(addr(0xb)).info.balance, num(258));
    assert!(matches!(
        engine.journal[0].last(),
        Some(JournalEntry::BalanceTransfer { from, to, balance })
            if *from == addr(0x51) && *to == addr(0xb) && *balance == num(250)
    ));
}

#[test]
fn transfer_to_self_keeps_the_balance() {
    let mut db = EmptyDatabase {};
    let mut engine = JournaledState::new();
    engine.state().insert(addr(0xa), funded(num(9)));
    let checkpoint = engine.checkpoint();
    assert_eq!(engine.transfer(&addr(0xa), &addr(0xa), num(5), &mut db), Ok((false, false)));
    assert_eq!(engine.account(addr(0xa)).info.balance, num(9));
    engine.checkpoint_revert(checkpoint);
    assert_eq!(engine.account(addr(0xa)).info.balance, num(9));
}

#[test]
fn transfer_out_of_fund() {
    let mut db = EmptyDatabase {};
    let mut engine = JournaledState::new();
    engine.state().insert(addr(0xa), funded(num(10)));
    let outcome = engine.transfer(&addr(0xa), &addr(0xb), num(11), &mut db);
    assert_eq!(outcome, Err(TransferError::OutOfFund));
    assert_eq!(engine.account(addr(0xa)).info.balance, num(10));
    assert_eq!(engine.account(addr(0xb)).info.balance, num(0));
    assert!(engine.account(addr(0xa)).is_touched);
    assert!(engine.account(addr(0xb)).is_touched);
    assert_eq!(entries(&engine), 3);
    assert!(!engine
        .journal
        .iter()
        .flatten()
        .any(|entry| matches!(entry, JournalEntry::BalanceTransfer { .. })));
}

#[test]
fn transfer_overflow_payment() {
    let mut db = EmptyDatabase {};
    let mut engine = JournaledState::new();
    engine.state().insert(addr(0xa), funded(num(10)));
    engine.state().insert(addr(0xb), funded(max()));
    let outcome = engine.transfer(&addr(0xa), &addr(0xb), num(1), &mut db);
    assert_eq!(outcome, Err(TransferError::OverflowPayment));
    assert_eq!(engine.account(addr(0xa)).info.balance, num(9));
    assert_eq!(engine.account(addr(0xb)).info.balance, max());
    assert!(engine.account(addr(0xb)).is_touched);
}

#[test]
fn transfer_up_to_the_maximum() {
    let mut db = EmptyDatabase {};
    let mut engine = JournaledState::new();
    let almost = U256 { w0: u64::MAX - 1, w1: u64::MAX, w2: u64::MAX, w3: u64::MAX };
    engine.state().insert(addr(0xa), funded(num(1)));
    engine.state().insert(addr(0xb), funded(almost));
    let checkpoint = engine.checkpoint();
    assert_eq!(engine.transfer(&addr(0xa), &addr(0xb), num(1), &mut db), Ok((false, false)));
    assert_eq!(engine.account(addr(0xb)).info.balance, max());
    assert_eq!(engine.account(addr(0xa)).info.balance, num(0));
    engine.checkpoint_revert(checkpoint);
    assert_eq!(engine.account(addr(0xb)).info.balance, almost);
    assert_eq!(engine.account(addr(0xa)).info.balance, num(1));
}

#[test]
fn transfer_carries_across_limbs() {
    let mut db = EmptyDatabase {};
    let mut engine = JournaledState::new();
    let low_full = U256 { w0: u64::MAX, w1: 0, w2: 0, w3: 0 };
    engine.state().insert(addr(0xa), funded(U256 { w0: 0, w1: 1, w2: 0, w3: 0 }));
    engine.state().insert(addr(0xb), funded(low_full));
    assert_eq!(engine.transfer(&addr(0xa), &addr(0xb), num(1), &mut db), Ok((false, false)));
    assert_eq!(engine.account(addr(0xa)).info.balance, low_full);
    assert_eq!(engine.account(addr(0xb)).info.balance, U256 { w0: 0, w1: 1, w2: 0, w3: 0 });
}

#[test]
fn selfdestruct_to_self() {
    let mut db = EmptyDatabase {};
    let mut engine = JournaledState::new();
    engine.state().insert(addr(0xa), funded(num(50)));
    let checkpoint = engine.checkpoint();
    let report = engine.selfdestruct(addr(0xa), addr(0xa), &mut db);
    assert!(report.had_value);
    assert!(!report.previously_destroyed);
    assert!(!report.is_cold);
    assert!(report.exists);
    assert_eq!(engine.account(addr(0xa)).info.balance, num(0));
    assert!(engine.account(addr(0xa)).is_destroyed);
    engine.checkpoint_revert(checkpoint);
    assert_eq!(engine.account(addr(0xa)).info.balance, num(50));
    assert!(!engine.account(addr(0xa)).is_destroyed);
}

#[test]
fn selfdestruct_to_another() {
    let mut db = EmptyDatabase {};
    let mut engine = JournaledState::new();
    engine.state().insert(addr(0xa), funded(num(50)));
    let checkpoint = engine.checkpoint();
    let report = engine.selfdestruct(addr(0xa), addr(0xb), &mut db);
    assert_eq!(
        report,
        SelfDestructResult {
            had_value: true,
            is_cold: true,
            exists: false,
            previously_destroyed: false,
        }
    );
    assert_eq!(engine.account(addr(0xa)).info.balance, num(0));
    assert_eq!(engine.account(addr(0xb)).info.balance, num(50));
    assert!(engine.account(addr(0xb)).is_touched);
    assert!(engine.account(addr(0xa)).is_destroyed);
    let again = engine.selfdestruct(addr(0xa), addr(0xb), &mut db);
    assert_eq!(
        again,
        SelfDestructResult {
            had_value: false,
            is_cold: false,
            exists: true,
            previously_destroyed: true,
        }
    );
    engine.checkpoint_revert(checkpoint);
    assert_eq!(engine.account(addr(0xa)).info.balance, num(50));
    assert!(!engine.account(addr(0xa)).is_destroyed);
    assert!(!engine.state.contains_key(&addr(0xb)));
}

#[test]
fn nonce_overflow() {
    let mut engine = JournaledState::new();
    let mut account = funded(num(0));
    account.info.nonce = u64::MAX;
    engine.state().insert(addr(0xa), account);
    assert_eq!(engine.inc_nonce(addr(0xa)), None);
    assert_eq!(entries(&engine), 0);
    assert_eq!(engine.account(addr(0xa)).info.nonce, u64::MAX);
    assert!(!engine.account(addr(0xa)).is_touched);
}

#[test]
fn nonce_increment_and_revert() {
    let mut engine = JournaledState::new();
    engine.state().insert(addr(0xa), funded(num(0)));
    let checkpoint = engine.checkpoint();
    assert_eq!(engine.inc_nonce(addr(0xa)), Some(1));
    assert_eq!(engine.inc_nonce(addr(0xa)), Some(2));
    assert_eq!(engine.account(addr(0xa)).info.nonce, 2);
    assert!(engine.account(addr(0xa)).is_touched);
    assert_eq!(entries(&engine), 3);
    engine.checkpoint_revert(checkpoint);
    assert_eq!(engine.account(addr(0xa)).info.nonce, 0);
    assert!(!engine.account(addr(0xa)).is_touched);
}

#[test]
fn sstore_of_the_present_value() {
    let mut db = EmptyDatabase {};
    let mut engine = JournaledState::new();
    engine.state().insert(addr(0xa), funded(num(0)));
    let stored = engine.sstore(addr(0xa), num(7), num(0), &mut db);
    assert_eq!(stored, (num(0), num(0), num(0), true));
    assert_eq!(entries(&engine), 1);
    assert!(matches!(
        engine.journal[0][0],
        JournalEntry::StorageChange { address, key, had_value: None }
            if address == addr(0xa) && key == num(7)
    ));
}

#[test]
fn storage_keeps_the_original_value() {
    let mut db = small_database();
    let mut engine = JournaledState::new();
    engine.load_account(addr(0x51), &mut db);
    assert_eq!(engine.sload(addr(0x51), num(1), &mut db), (num(77), true));
    assert_eq!(engine.sload(addr(0x51), num(1), &mut db), (num(77), false));
    assert_eq!(engine.sstore(addr(0x51), num(1), num(5), &mut db), (num(77), num(77), num(5), false));
    assert_eq!(engine.sstore(addr(0x51), num(1), num(6), &mut db), (num(77), num(5), num(6), false));
    assert_eq!(engine.sstore(addr(0x51), num(1), num(6), &mut db), (num(77), num(6), num(6), false));
    let slot = *engine.account(addr(0x51)).storage.get(&num(1)).unwrap();
    assert_eq!(slot.original_value(), num(77));
    assert_eq!(slot.present_value(), num(6));
    assert_eq!(engine.sload(addr(0x51), num(1), &mut db), (num(6), false));
}

#[test]
fn storage_revert_restores_and_removes() {
    let mut db = small_database();
    let mut engine = JournaledState::new();
    engine.load_account(addr(0x51), &mut db);
    engine.sload(addr(0x51), num(1), &mut db);
    let checkpoint = engine.checkpoint();
    engine.sstore(addr(0x51), num(1), num(5), &mut db);
    engine.sstore(addr(0x51), num(2), num(9), &mut db);
    engine.checkpoint_revert(checkpoint);
    let account = engine.account(addr(0x51));
    assert_eq!(account.storage.get(&num(1)), Some(&StorageSlot::new(num(77))));
    assert!(account.storage.get(&num(2)).is_none());
}

#[test]
fn sload_of_cleared_storage_is_zero() {
    let mut db = small_database();
    let mut engine = JournaledState::new();
    engine.load_account(addr(0x51), &mut db);
    engine.state().get_mut(&addr(0x51)).unwrap().storage_cleared = true;
    assert_eq!(engine.sload(addr(0x51), num(1), &mut db), (num(0), true));
}

#[test]
fn touch_is_journaled_once() {
    let mut engine = JournaledState::new();
    engine.state().insert(addr(0xa), funded(num(0)));
    engine.touch(&addr(0xa));
    engine.touch(&addr(0xa));
    engine.touch(&addr(0xa));
    engine.touch(&addr(0xc));
    assert_eq!(entries(&engine), 1);
    assert!(matches!(
        engine.journal[0][0],
        JournalEntry::AccountTouched { address } if address == addr(0xa)
    ));
    assert!(engine.account(addr(0xa)).is_touched);
    assert!(!engine.state.contains_key(&addr(0xc)));
}

#[test]
fn ripemd_precompile_stays_touched() {
    let mut engine = JournaledState::new();
    engine.load_precompiles_default(&[addr(3), addr(4)]);
    assert!(engine.account(addr(3)).is_existing_precompile);
    assert!(engine.account(addr(3)).info.is_empty());
    let checkpoint = engine.checkpoint();
    engine.touch(&addr(3));
    engine.touch(&addr(4));
    engine.checkpoint_revert(checkpoint);
    assert!(engine.account(addr(3)).is_touched);
    assert!(!engine.account(addr(4)).is_touched);
}

#[test]
fn create_collision_on_nonce() {
    let mut db = EmptyDatabase {};
    let mut engine = JournaledState::new();
    let mut account = funded(num(3));
    account.info.nonce = 1;
    account.storage.insert(num(1), StorageSlot::new(num(9)));
    engine.state().insert(addr(0xa), account);
    assert!(!engine.create_account(addr(0xa), false, &mut db));
    let account = engine.account(addr(0xa));
    assert_eq!(account.info.nonce, 1);
    assert_eq!(account.info.balance, num(3));
    assert_eq!(account.info.code_hash, Hash32::keccak_empty());
    assert!(account.info.code.as_ref().unwrap().is_empty());
    assert_eq!(account.storage.get(&num(1)), Some(&StorageSlot::new(num(9))));
    assert!(!account.storage_cleared);
    assert!(!account.is_touched);
    assert!(!account.is_destroyed);
    assert_eq!(entries(&engine), 0);
}

#[test]
fn create_collision_on_code_and_precompile() {
    let mut db = small_database();
    let mut engine = JournaledState::new();
    assert!(!engine.create_account(addr(0x51), false, &mut db));
    assert!(!engine.create_account(addr(0x60), true, &mut db));
    assert!(!engine.account(addr(0x60)).storage_cleared);
}

#[test]
fn create_account_resets_the_account() {
    let mut db = EmptyDatabase {};
    let mut engine = JournaledState::new();
    let mut account = funded(num(3));
    account.storage.insert(num(1), StorageSlot::new(num(9)));
    engine.state().insert(addr(0xa), account);
    assert!(engine.create_account(addr(0xa), false, &mut db));
    let account = engine.account(addr(0xa));
    assert!(account.storage_cleared);
    assert_eq!(account.storage.get(&num(1)), Some(&StorageSlot::new(num(0))));
    assert_eq!(account.info.code_hash, Hash32::keccak_empty());
    assert!(account.info.code.is_none());
    assert_eq!(account.info.balance, num(3));
    assert!(!account.is_touched);
    assert!(matches!(
        engine.journal[0].last(),
        Some(JournalEntry::AccountTouched { address }) if *address == addr(0xa)
    ));
    assert_eq!(engine.sload(addr(0xa), num(2), &mut db), (num(0), true));
}

#[test]
fn load_code_fills_the_cache() {
    let mut db = small_database();
    let mut engine = JournaledState::new();
    {
        let (account, is_cold) = engine.load_code(addr(0x51), &mut db);
        assert!(is_cold);
        assert_eq!(account.info.code.as_ref().unwrap().bytes, vec![0x60, 0x00]);
        account.info.nonce = 6;
    }
    assert_eq!(engine.account(addr(0x51)).info.nonce, 6);
    let (account, is_cold) = engine.load_code(addr(0x52), &mut db);
    assert!(is_cold);
    assert!(account.info.code.as_ref().unwrap().is_empty());
    assert_eq!(account.info.code.as_ref().unwrap().hash(), Hash32::keccak_empty());
    let (_, is_cold) = engine.load_code(addr(0x52), &mut db);
    assert!(!is_cold);
    assert_eq!(entries(&engine), 2);
}

#[test]
fn load_account_exist_reports() {
    let mut db = small_database();
    let mut engine = JournaledState::new();
    engine.load_precompiles_default(&[addr(2)]);
    assert_eq!(engine.load_account_exist(addr(2), &mut db), (false, true));
    assert_eq!(engine.load_account_exist(addr(0x51), &mut db), (true, true));
    assert_eq!(engine.load_account_exist(addr(0x51), &mut db), (false, true));
    assert_eq!(engine.load_account_exist(addr(0x70), &mut db), (true, false));
}

#[test]
fn set_code_installs_code_and_hash() {
    let mut engine = JournaledState::new();
    engine.state().insert(addr(0xa), funded(num(0)));
    let hash = Hash32 { hi: 7, lo: 8 };
    engine.set_code(addr(0xa), Bytecode::new_raw(vec![1, 2, 3], hash));
    let account = engine.account(addr(0xa));
    assert_eq!(account.info.code_hash, hash);
    assert_eq!(account.info.code.as_ref().unwrap().bytes, vec![1, 2, 3]);
    assert!(account.is_touched);
    assert!(matches!(
        engine.journal[0].last(),
        Some(JournalEntry::CodeChange { address, had_code })
            if *address == addr(0xa) && had_code.bytes == vec![1, 2, 3] && had_code.hash == hash
    ));
}

#[test]
fn nested_revert_keeps_the_outer_frame() {
    let mut db = EmptyDatabase {};
    let mut engine = JournaledState::new();
    engine.state().insert(addr(0xa), funded(num(100)));
    let outer = engine.checkpoint();
    engine.transfer(&addr(0xa), &addr(0xb), num(10), &mut db).unwrap();
    let inner = engine.checkpoint();
    assert_eq!(engine.depth(), 2);
    engine.transfer(&addr(0xa), &addr(0xb), num(20), &mut db).unwrap();
    engine.checkpoint_revert(inner);
    assert_eq!(engine.depth(), 1);
    assert_eq!(engine.account(addr(0xa)).info.balance, num(90));
    assert_eq!(engine.account(addr(0xb)).info.balance, num(10));
    let committed = engine.checkpoint();
    engine.transfer(&addr(0xa), &addr(0xb), num(5), &mut db).unwrap();
    engine.checkpoint_commit();
    assert!(!engine.can_revert(&committed) || engine.depth() == 1);
    assert_eq!(engine.account(addr(0xa)).info.balance, num(85));
    engine.checkpoint_revert(outer);
    assert_eq!(engine.depth(), 0);
    assert_eq!(engine.account(addr(0xa)).info.balance, num(100));
    assert!(!engine.state.contains_key(&addr(0xb)));
    assert_eq!(engine.journal.len(), 1);
    assert_eq!(entries(&engine), 0);
}

#[test]
fn revert_cuts_the_logs_back() {
    let mut engine = JournaledState::new();
    engine.log(Log { address: addr(1), topics: vec![], data: vec![1] });
    let checkpoint = engine.checkpoint();
    engine.log(Log { address: addr(2), topics: vec![Hash32 { hi: 0, lo: 1 }], data: vec![2] });
    engine.log(Log { address: addr(3), topics: vec![], data: vec![3] });
    assert_eq!(engine.logs.len(), 3);
    engine.checkpoint_revert(checkpoint);
    assert_eq!(engine.logs.len(), 1);
    assert_eq!(engine.logs[0].data, vec![1]);
}

#[test]
fn a_stale_checkpoint_is_refused() {
    let mut engine = JournaledState::new();
    let checkpoint = engine.checkpoint();
    engine.checkpoint_commit();
    assert!(!engine.can_revert(&checkpoint));
    engine.finalize();
    let again = engine.checkpoint();
    assert!(engine.can_revert(&again));
}

#[test]
fn finalize_returns_the_touched_accounts() {
    let mut db = small_database();
    let mut engine = JournaledState::new();
    engine.load_account(addr(0x51), &mut db);
    engine.load_account(addr(0x52), &mut db);
    engine.transfer(&addr(0x51), &addr(0x53), num(1), &mut db).unwrap();
    engine.log(Log { address: addr(1), topics: vec![], data: vec![9] });
    let (state, logs) = engine.finalize();
    let mut keys = state.keys();
    keys.sort_by_key(|address| address.lo);
    assert_eq!(keys, vec![addr(0x51), addr(0x53)]);
    assert_eq!(state.get(&addr(0x53)).unwrap().info.balance, num(1));
    assert_eq!(logs.len(), 1);
    assert_eq!(engine.depth(), 0);
    assert_eq!(engine.journal.len(), 1);
    assert!(engine.journal[0].is_empty());
    assert!(engine.logs.is_empty());
    assert!(engine.state.keys().is_empty());

    let mut next = JournaledState::new();
    for address in state.keys() {
        let account = state.get(&address).unwrap();
        let mut copy = funded(account.info.balance);
        copy.info.nonce = account.info.nonce;
        copy.is_touched = account.is_touched;
        next.state().insert(address, copy);
    }
    let (same, _) = next.finalize();
    assert_eq!(same.keys().len(), 2);
    assert_eq!(same.get(&addr(0x51)).unwrap().info.balance, num(999));
}

#[test]
fn load_precompiles_inserts_plain_accounts() {
    let mut engine = JournaledState::new();
    let info = |balance: u64| AccountInfo {
        balance: num(balance),
        nonce: 0,
        code_hash: Hash32::keccak_empty(),
        code: None,
    };
    engine.load_precompiles(vec![(addr(9), info(1)), (addr(10), info(2)), (addr(9), info(3))]);
    assert_eq!(engine.account(addr(9)).info.balance, num(3));
    assert_eq!(engine.account(addr(10)).info.balance, num(2));
    assert!(!engine.account(addr(9)).is_existing_precompile);
    assert_eq!(entries(&engine), 0);
}
