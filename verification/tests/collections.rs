use evm_journal::{Account, AccountInfo, Address, State, Storage, StorageSlot, U256};

#[test]
fn state_holds_what_was_inserted() {
    let mut state = State::new();
    let a = Address { hi: 1, lo: 2 };
    let b = Address { hi: 2, lo: 1 };
    assert!(state.get(&a).is_none());
    assert!(!state.contains_key(&a));
    assert!(state.insert(a, Account::from(AccountInfo::default())).is_none());
    let mut second = Account::from(AccountInfo::default());
    second.info.nonce = 4;
    assert_eq!(state.insert(a, second).unwrap().info.nonce, 0);
    assert_eq!(state.get(&a).unwrap().info.nonce, 4);
    assert!(state.get(&b).is_none());
    state.insert(b, Account::from(AccountInfo::default()));
    state.get_mut(&b).unwrap().info.nonce = 9;
    assert_eq!(state.get(&b).unwrap().info.nonce, 9);
    assert!(state.get_mut(&Address { hi: 0, lo: 0 }).is_none());
    let mut keys = state.keys();
    keys.sort_by_key(|address| address.hi);
    assert_eq!(keys, vec![a, b]);
    assert_eq!(state.remove(&a).unwrap().info.nonce, 4);
    assert!(state.remove(&a).is_none());
    assert_eq!(state.keys(), vec![b]);
}

#[test]
fn storage_holds_what_was_inserted() {
    let mut storage = Storage::new();
    let high = U256 { w0: 0, w1: 0, w2: 0, w3: 1 };
    let low = U256::from_u64(1);
    assert!(storage.get(&low).is_none());
    storage.insert(low, StorageSlot::new(U256::from_u64(5)));
    storage.insert(high, StorageSlot::new(U256::from_u64(6)));
    assert!(storage.contains_key(&low));
    assert_eq!(storage.get(&low).unwrap().present_value(), U256::from_u64(5));
    assert_eq!(storage.get(&high).unwrap().original_value(), U256::from_u64(6));
    let mut keys = storage.keys();
    keys.sort_by_key(|key| key.w3);
    assert_eq!(keys, vec![low, high]);
    storage.reset_all();
    assert_eq!(storage.get(&low), Some(&StorageSlot::default()));
    assert_eq!(storage.get(&high), Some(&StorageSlot::new(U256::zero())));
    storage.remove(&low);
    assert!(storage.get(&low).is_none());
    assert_eq!(storage.keys(), vec![high]);
}

#[test]
fn numbers_and_addresses() {
    assert!(U256::zero().is_zero());
    assert!(!U256::from_u64(1).is_zero());
    assert!(!U256 { w0: 0, w1: 0, w2: 1, w3: 0 }.is_zero());
    assert_eq!(U256::from_u64(7), U256 { w0: 7, w1: 0, w2: 0, w3: 0 });
    assert_eq!(Address::from_low_u64(3), Address { hi: 0, lo: 3 });
    assert!(Address::from_low_u64(3).is_ripemd_precompile());
    assert!(!Address::from_low_u64(2).is_ripemd_precompile());
    assert!(!Address { hi: 1, lo: 3 }.is_ripemd_precompile());
    let info = AccountInfo::default();
    assert!(info.is_empty());
    assert!(Account::from(info).is_empty());
    let mut funded = AccountInfo::default();
    funded.balance = U256::from_u64(1);
    assert!(!funded.is_empty());
}
