use evm_journal::{
    AccountInfo, Address, Bytecode, Database, EmptyDatabase, Hash32, Oracle, U256,
};

struct FixedDatabase {
    balance: u64,
}

impl Database for FixedDatabase {
    fn oracle(&self) -> Oracle {
        unreachable!()
    }

    fn basic(&mut self, _address: Address) -> AccountInfo {
        AccountInfo {
            balance: U256::from_u64(self.balance),
            nonce: 0,
            code_hash: Hash32::keccak_empty(),
            code: None,
        }
    }

    fn code_by_hash(&mut self, _code_hash: Hash32) -> Bytecode {
        Bytecode::new()
    }

    fn storage(&mut self, _address: Address, _index: U256) -> U256 {
        U256::zero()
    }
}

#[test]
fn empty_database_knows_no_account() {
    let mut db = EmptyDatabase {};
    let info = db.basic(Address::from_low_u64(0xaa));
    assert!(info.is_empty());
    assert!(info.code.is_none());
    assert!(db.code_by_hash(Hash32::keccak_empty()).is_empty());
    assert_eq!(db.storage(Address::from_low_u64(0xaa), U256::from_u64(1)), U256::zero());
}

#[test]
fn a_database_of_the_caller_answers() {
    let mut db = FixedDatabase { balance: 7 };
    let info = db.basic(Address::from_low_u64(1));
    assert_eq!(info.balance, U256::from_u64(7));
    assert!(!info.is_empty());
}
